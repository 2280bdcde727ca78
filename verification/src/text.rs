//! Plain text primitives: UTF-8 sizes, decimal numbers, trimming and matching.

use vstd::prelude::*;
use vstd::string::*;
use vstd::utf8::encode_utf8;

verus! {

/// `String::push`.
///
/// Claimed: the character is put behind the characters of the string.
pub assume_specification[ String::push ](s: &mut String, c: char)
    ensures
        final(s)@ == old(s)@.push(c),
;

/// Bytes that one character takes in UTF-8.
pub open spec fn char_bytes(c: char) -> nat {
    let v = c as u32;
    if v < 0x80 {
        1
    } else if v < 0x800 {
        2
    } else if v < 0x10000 {
        3
    } else {
        4
    }
}

/// Bytes that a text takes in UTF-8.
pub open spec fn text_bytes(s: Seq<char>) -> nat
    decreases s.len(),
{
    if s.len() == 0 {
        0
    } else {
        text_bytes(s.drop_last()) + char_bytes(s.last())
    }
}

pub proof fn lemma_text_bytes_push(s: Seq<char>, c: char)
    ensures
        text_bytes(s.push(c)) == text_bytes(s) + char_bytes(c),
{
    assert(s.push(c).drop_last() =~= s);
}

/// The size of a joined text is the sum of the sizes of its parts.
pub proof fn lemma_text_bytes_concat(a: Seq<char>, b: Seq<char>)
    ensures
        text_bytes(a + b) == text_bytes(a) + text_bytes(b),
    decreases b.len(),
{
    if b.len() == 0 {
        assert(a + b =~= a);
    } else {
        lemma_text_bytes_concat(a, b.drop_last());
        assert((a + b).drop_last() =~= a + b.drop_last());
    }
}

/// The size is the length of the UTF-8 encoding.
pub proof fn lemma_text_bytes_is_utf8_length(s: Seq<char>)
    ensures
        text_bytes(s) == encode_utf8(s).len(),
    decreases s.len(),
{
    if s.len() > 0 {
        let first = seq![s[0]];
        let rest = s.drop_first();
        lemma_text_bytes_is_utf8_length(rest);
        assert(s =~= first + rest);
        lemma_text_bytes_concat(first, rest);
        assert(first.drop_last() =~= Seq::<char>::empty());
        assert(text_bytes(first.drop_last()) == 0);
        assert(text_bytes(first) == char_bytes(s[0]));
        vstd::utf8::char_is_scalar(s[0]);
    }
}

/// The number of bytes of `text`.
pub fn byte_len(text: &str) -> (n: usize)
    ensures
        n == text_bytes(text@),
{
    let bytes = text.as_bytes();
    proof {
        lemma_text_bytes_is_utf8_length(text@);
    }
    bytes.len()
}

/// The characters of `text`, in order.
pub fn chars_of(text: &str) -> (chars: Vec<char>)
    ensures
        chars@ == text@,
{
    let mut chars: Vec<char> = Vec::new();
    for c in it: text.chars()
        invariant
            it.seq() == text@,
            chars@ == text@.subrange(0, it.index()),
    {
        chars.push(c);
    }
    assert(text@.subrange(0, text@.len() as int) =~= text@);
    chars
}

/// The text made of `chars[from..to]`.
pub fn text_of(chars: &[char], from: usize, to: usize) -> (text: String)
    requires
        from <= to <= chars@.len(),
    ensures
        text@ == chars@.subrange(from as int, to as int),
{
    let mut text = String::new();
    let mut i: usize = from;
    while i < to
        invariant
            from <= i <= to <= chars@.len(),
            text@ == chars@.subrange(from as int, i as int),
        decreases to - i,
    {
        text.push(chars[i]);
        i += 1;
        assert(chars@.subrange(from as int, i as int) =~= chars@.subrange(from as int, i - 1).push(chars@[i - 1]));
    }
    text
}

pub open spec fn digit_char(d: nat) -> char {
    ((48 + d) as u8) as char
}

/// The decimal digits of `n`.
pub open spec fn decimal(n: nat) -> Seq<char>
    decreases n,
{
    if n < 10 {
        seq![digit_char(n)]
    } else {
        decimal(n / 10).push(digit_char(n % 10))
    }
}

/// Writes `n` in decimal.
pub fn decimal_text(n: u64) -> (text: String)
    ensures
        text@ == decimal(n as nat),
    decreases n,
{
    if n < 10 {
        let mut text = String::new();
        text.push((48 + n as u8) as char);
        assert(text@ =~= decimal(n as nat));
        text
    } else {
        let mut text = decimal_text(n / 10);
        text.push((48 + (n % 10) as u8) as char);
        text
    }
}

/// A number in decimal, with a sign where it is negative.
pub open spec fn signed_decimal(n: int) -> Seq<char> {
    if n < 0 {
        "-"@ + decimal((-n) as nat)
    } else {
        decimal(n as nat)
    }
}

/// Writes `n` in decimal.
pub fn signed_decimal_text(n: i64) -> (text: String)
    ensures
        text@ == signed_decimal(n as int),
{
    if n >= 0 {
        return decimal_text(n as u64);
    }
    let magnitude: u64 = if n == i64::MIN {
        9223372036854775808
    } else {
        (-n) as u64
    };
    let mut text = String::from_str("-");
    text.append(decimal_text(magnitude).as_str());
    text
}

/// The debug form of a text, quotes and escapes included.
pub uninterp spec fn debug_quoted(text: Seq<char>) -> Seq<char>;

/// `format!("{:?}")` on a string slice.
///
/// Claimed: what comes out depends on the text alone. How the standard library quotes and escapes
/// it is left unsaid.
#[verifier::external_body]
pub(crate) fn debug_text(text: &str) -> (r: String)
    ensures
        r@ == debug_quoted(text@),
{
    format!("{text:?}")
}

// ---------------------------------------------------------------------------------------------
// White space.
// ---------------------------------------------------------------------------------------------

/// The characters with the Unicode property `White_Space`.
pub open spec fn white_space(c: char) -> bool {
    let v = c as u32;
    ||| 0x9 <= v <= 0xd
    ||| v == 0x20
    ||| v == 0x85
    ||| v == 0xa0
    ||| v == 0x1680
    ||| 0x2000 <= v <= 0x200a
    ||| v == 0x2028
    ||| v == 0x2029
    ||| v == 0x202f
    ||| v == 0x205f
    ||| v == 0x3000
}

pub fn is_white_space(c: char) -> (r: bool)
    ensures
        r == white_space(c),
{
    let v: u32 = c as u32;
    (0x9 <= v && v <= 0xd) || v == 0x20 || v == 0x85 || v == 0xa0 || v == 0x1680 || (0x2000 <= v
        && v <= 0x200a) || v == 0x2028 || v == 0x2029 || v == 0x202f || v == 0x205f || v == 0x3000
}

/// The text without the white space at its start.
pub open spec fn trimmed_start(s: Seq<char>) -> Seq<char>
    decreases s.len(),
{
    if s.len() > 0 && white_space(s[0]) {
        trimmed_start(s.drop_first())
    } else {
        s
    }
}

/// The text without the white space at its end.
pub open spec fn trimmed_end(s: Seq<char>) -> Seq<char>
    decreases s.len(),
{
    if s.len() > 0 && white_space(s.last()) {
        trimmed_end(s.drop_last())
    } else {
        s
    }
}

pub open spec fn trimmed(s: Seq<char>) -> Seq<char> {
    trimmed_end(trimmed_start(s))
}

/// Nothing but white space.
pub open spec fn blank(s: Seq<char>) -> bool {
    forall|i: int| 0 <= i < s.len() ==> white_space(#[trigger] s[i])
}

proof fn lemma_trimmed_start_from(s: Seq<char>, at: int)
    requires
        0 <= at <= s.len(),
        forall|i: int| 0 <= i < at ==> white_space(#[trigger] s[i]),
    ensures
        trimmed_start(s) == trimmed_start(s.subrange(at, s.len() as int)),
    decreases at,
{
    if at == 0 {
        assert(s.subrange(0, s.len() as int) =~= s);
    } else {
        let rest = s.drop_first();
        assert(white_space(s[0]));
        assert forall|i: int| 0 <= i < at - 1 implies white_space(#[trigger] rest[i]) by {
            assert(rest[i] == s[i + 1]);
        }
        lemma_trimmed_start_from(rest, at - 1);
        assert(rest.subrange(at - 1, rest.len() as int) =~= s.subrange(at, s.len() as int));
    }
}

proof fn lemma_trimmed_end_to(s: Seq<char>, to: int)
    requires
        0 <= to <= s.len(),
        forall|i: int| to <= i < s.len() ==> white_space(#[trigger] s[i]),
    ensures
        trimmed_end(s) == trimmed_end(s.subrange(0, to)),
    decreases s.len() - to,
{
    if to == s.len() {
        assert(s.subrange(0, to) =~= s);
    } else {
        lemma_trimmed_end_to(s.drop_last(), to);
        assert(s.drop_last().subrange(0, to) =~= s.subrange(0, to));
        assert(white_space(s[s.len() - 1]));
    }
}

/// A text is blank exactly where trimming leaves nothing.
pub proof fn law_blank_trims_to_nothing(s: Seq<char>)
    ensures
        blank(s) <==> trimmed(s).len() == 0,
    decreases s.len(),
{
    if s.len() > 0 {
        if white_space(s[0]) {
            law_blank_trims_to_nothing(s.drop_first());
            assert(blank(s) <==> blank(s.drop_first())) by {
                if blank(s) {
                    assert forall|i: int| 0 <= i < s.drop_first().len() implies white_space(
                        #[trigger] s.drop_first()[i],
                    ) by {
                        assert(s.drop_first()[i] == s[i + 1]);
                    }
                }
                if blank(s.drop_first()) {
                    assert forall|i: int| 0 <= i < s.len() implies white_space(#[trigger] s[i]) by {
                        if i > 0 {
                            assert(s.drop_first()[i - 1] == s[i]);
                        }
                    }
                }
            }
        } else {
            lemma_trimmed_end_keeps_first(s);
        }
    }
}

proof fn lemma_trimmed_end_keeps_first(s: Seq<char>)
    requires
        s.len() > 0,
        !white_space(s[0]),
    ensures
        trimmed_end(s).len() > 0,
        trimmed_end(s)[0] == s[0],
    decreases s.len(),
{
    if white_space(s.last()) {
        lemma_trimmed_end_keeps_first(s.drop_last());
    }
}

/// The bounds of `chars` without the white space at both ends.
pub fn trimmed_bounds(chars: &[char]) -> (r: (usize, usize))
    ensures
        r.0 <= r.1 <= chars@.len(),
        chars@.subrange(r.0 as int, r.1 as int) == trimmed(chars@),
        chars@.subrange(r.0 as int, chars@.len() as int) == trimmed_start(chars@),
        r.0 == chars@.len() <==> blank(chars@),
{
    let n: usize = chars.len();
    let mut from: usize = 0;
    while from < n && is_white_space(chars[from])
        invariant
            from <= n == chars@.len(),
            forall|i: int| 0 <= i < from ==> white_space(#[trigger] chars@[i]),
        ensures
            from == n || !white_space(chars@[from as int]),
        decreases n - from,
    {
        from += 1;
    }
    let ghost rest = chars@.subrange(from as int, n as int);
    proof {
        lemma_trimmed_start_from(chars@, from as int);
        if from < n {
            assert(rest[0] == chars@[from as int]);
        }
        assert(trimmed_start(chars@) == rest);
    }
    let mut to: usize = n;
    while to > from && is_white_space(chars[to - 1])
        invariant
            from <= to <= n == chars@.len(),
            forall|i: int| to <= i < n ==> white_space(#[trigger] chars@[i]),
        ensures
            to == from || !white_space(chars@[to - 1]),
        decreases to,
    {
        to -= 1;
    }
    proof {
        assert forall|i: int| to - from <= i < rest.len() implies white_space(#[trigger] rest[i]) by {
            assert(rest[i] == chars@[from + i]);
        }
        lemma_trimmed_end_to(rest, to - from);
        assert(rest.subrange(0, to - from) =~= chars@.subrange(from as int, to as int));
        if to > from {
            assert(chars@.subrange(from as int, to as int).last() == chars@[to - 1]);
        }
    }
    (from, to)
}

/// The text without the white space at both ends.
pub fn trim_text(text: &str) -> (r: String)
    ensures
        r@ == trimmed(text@),
{
    let chars = chars_of(text);
    let (from, to) = trimmed_bounds(chars.as_slice());
    text_of(chars.as_slice(), from, to)
}

/// The text without the white space at its start.
pub fn trim_start_text(text: &str) -> (r: String)
    ensures
        r@ == trimmed_start(text@),
{
    let chars = chars_of(text);
    let (from, _) = trimmed_bounds(chars.as_slice());
    text_of(chars.as_slice(), from, chars.len())
}

/// Whether the text is empty or nothing but white space.
pub fn is_blank(text: &str) -> (r: bool)
    ensures
        r == blank(text@),
{
    for c in it: text.chars()
        invariant
            it.seq() == text@,
            forall|i: int| 0 <= i < it.index() ==> white_space(#[trigger] text@[i]),
    {
        if !is_white_space(c) {
            return false;
        }
    }
    true
}

// ---------------------------------------------------------------------------------------------
// Matching.
// ---------------------------------------------------------------------------------------------

pub open spec fn has_prefix(s: Seq<char>, prefix: Seq<char>) -> bool {
    prefix.len() <= s.len() && s.subrange(0, prefix.len() as int) == prefix
}

pub open spec fn has_suffix(s: Seq<char>, suffix: Seq<char>) -> bool {
    suffix.len() <= s.len() && s.subrange(s.len() - suffix.len(), s.len() as int) == suffix
}

pub open spec fn occurs_at(s: Seq<char>, part: Seq<char>, at: int) -> bool {
    0 <= at && at + part.len() <= s.len() && s.subrange(at, at + part.len()) == part
}

pub open spec fn occurs_in(s: Seq<char>, part: Seq<char>) -> bool {
    exists|at: int| occurs_at(s, part, at)
}

/// Whether `part` stands in `chars` at `at`.
pub fn stands_at(chars: &[char], part: &[char], at: usize) -> (r: bool)
    ensures
        r == occurs_at(chars@, part@, at as int),
{
    let n: usize = chars.len();
    if at > n || n - at < part.len() {
        return false;
    }
    let mut i: usize = 0;
    while i < part.len()
        invariant
            n == chars@.len(),
            i <= part@.len(),
            at + part@.len() <= chars@.len(),
            forall|k: int| 0 <= k < i ==> chars@[at + k] == part@[k],
        decreases part@.len() - i,
    {
        if chars[at + i] != part[i] {
            assert(chars@.subrange(at as int, at + part@.len())[i as int] == chars@[at + i]);
            return false;
        }
        i += 1;
    }
    assert(chars@.subrange(at as int, at + part@.len()) =~= part@);
    true
}

pub fn starts_with(text: &str, prefix: &str) -> (r: bool)
    ensures
        r == has_prefix(text@, prefix@),
{
    let chars = chars_of(text);
    let part = chars_of(prefix);
    stands_at(chars.as_slice(), part.as_slice(), 0)
}

pub fn ends_with(text: &str, suffix: &str) -> (r: bool)
    ensures
        r == has_suffix(text@, suffix@),
{
    let chars = chars_of(text);
    let part = chars_of(suffix);
    if part.len() > chars.len() {
        return false;
    }
    stands_at(chars.as_slice(), part.as_slice(), chars.len() - part.len())
}

pub fn contains(text: &str, part: &str) -> (r: bool)
    ensures
        r == occurs_in(text@, part@),
{
    let chars = chars_of(text);
    let wanted = chars_of(part);
    let n: usize = chars.len();
    let mut at: usize = 0;
    while at < n
        invariant
            chars@ == text@,
            wanted@ == part@,
            at <= n == chars@.len(),
            forall|k: int| 0 <= k < at ==> !occurs_at(text@, part@, k),
        decreases n - at,
    {
        if stands_at(chars.as_slice(), wanted.as_slice(), at) {
            return true;
        }
        at += 1;
    }
    stands_at(chars.as_slice(), wanted.as_slice(), n)
}

/// The lower-case form of an ASCII letter, any other character as it is.
pub open spec fn ascii_lower(c: char) -> char {
    if 'A' <= c <= 'Z' {
        ((c as u8) + 32) as u8 as char
    } else {
        c
    }
}

pub fn to_ascii_lower(c: char) -> (r: char)
    ensures
        r == ascii_lower(c),
{
    if 'A' <= c && c <= 'Z' {
        ((c as u8) + 32) as char
    } else {
        c
    }
}

/// The texts are the same but for the case of ASCII letters.
pub open spec fn same_ignoring_case(a: Seq<char>, b: Seq<char>) -> bool {
    a.len() == b.len() && forall|i: int|
        0 <= i < a.len() ==> ascii_lower(#[trigger] a[i]) == ascii_lower(b[i])
}

fn stands_at_ignoring_case(chars: &[char], part: &[char], at: usize) -> (r: bool)
    requires
        at + part@.len() <= chars@.len(),
    ensures
        r == same_ignoring_case(chars@.subrange(at as int, at + part@.len()), part@),
{
    let ghost window = chars@.subrange(at as int, at + part@.len());
    let n: usize = chars.len();
    let mut i: usize = 0;
    while i < part.len()
        invariant
            n == chars@.len(),
            i <= part@.len(),
            at + part@.len() <= chars@.len(),
            window == chars@.subrange(at as int, at + part@.len()),
            forall|k: int| 0 <= k < i ==> ascii_lower(#[trigger] window[k]) == ascii_lower(part@[k]),
        decreases part@.len() - i,
    {
        if to_ascii_lower(chars[at + i]) != to_ascii_lower(part[i]) {
            assert(window[i as int] == chars@[at + i]);
            return false;
        }
        i += 1;
    }
    true
}

pub fn same_text_ignoring_case(a: &str, b: &str) -> (r: bool)
    ensures
        r == same_ignoring_case(a@, b@),
{
    let a_chars = chars_of(a);
    let b_chars = chars_of(b);
    if a_chars.len() != b_chars.len() {
        return false;
    }
    assert(a_chars@.subrange(0, b_chars@.len() as int) =~= a_chars@);
    stands_at_ignoring_case(a_chars.as_slice(), b_chars.as_slice(), 0)
}

/// The trimmed text begins with `start` and ends with `end`, whatever the case of their letters.
pub open spec fn between_markers(s: Seq<char>, start: Seq<char>, end: Seq<char>) -> bool {
    let front = trimmed_start(s);
    let t = trimmed(s);
    &&& front.len() >= start.len()
    &&& same_ignoring_case(front.subrange(0, start.len() as int), start)
    &&& t.len() >= end.len()
    &&& same_ignoring_case(t.subrange(t.len() - end.len(), t.len() as int), end)
}

pub fn matches_markers(text: &str, start: &str, end: &str) -> (r: bool)
    ensures
        r == between_markers(text@, start@, end@),
{
    let chars = chars_of(text);
    let first = chars_of(start);
    let last = chars_of(end);
    let (from, to) = trimmed_bounds(chars.as_slice());
    if chars.len() - from < first.len() || to - from < last.len() {
        return false;
    }
    let starts = stands_at_ignoring_case(chars.as_slice(), first.as_slice(), from);
    let ends = stands_at_ignoring_case(chars.as_slice(), last.as_slice(), to - last.len());
    proof {
        let front = trimmed_start(text@);
        let t = trimmed(text@);
        assert(front.subrange(0, first@.len() as int) =~= chars@.subrange(
            from as int,
            from + first@.len(),
        ));
        assert(t.subrange(t.len() - last@.len(), t.len() as int) =~= chars@.subrange(
            to - last@.len(),
            to as int,
        ));
    }
    starts && ends
}

// ---------------------------------------------------------------------------------------------
// Joining.
// ---------------------------------------------------------------------------------------------

pub open spec fn texts(parts: Seq<String>) -> Seq<Seq<char>> {
    parts.map_values(|p: String| p@)
}

/// The parts with `separator` between each two.
pub open spec fn joined(parts: Seq<Seq<char>>, separator: Seq<char>) -> Seq<char>
    decreases parts.len(),
{
    if parts.len() == 0 {
        Seq::empty()
    } else if parts.len() == 1 {
        parts[0]
    } else {
        joined(parts.drop_last(), separator) + separator + parts.last()
    }
}

pub fn join(parts: &Vec<String>, separator: &str) -> (text: String)
    ensures
        text@ == joined(texts(parts@), separator@),
{
    let ghost all = texts(parts@);
    let mut text = String::new();
    let mut i: usize = 0;
    assert(all.subrange(0, 0) =~= Seq::<Seq<char>>::empty());
    while i < parts.len()
        invariant
            i <= parts@.len(),
            all == texts(parts@),
            text@ == joined(all.subrange(0, i as int), separator@),
        decreases parts@.len() - i,
    {
        if i > 0 {
            text.append(separator);
        }
        text.append(parts[i].as_str());
        proof {
            let next = all.subrange(0, i + 1);
            assert(next.drop_last() =~= all.subrange(0, i as int));
            assert(next.last() == parts@[i as int]@);
            if i == 0 {
                assert(text@ =~= next[0]);
            }
        }
        i += 1;
    }
    assert(all.subrange(0, i as int) =~= all);
    text
}

} // verus!
