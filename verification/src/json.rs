//! The JSON forms that planning writes itself.

use crate::item::list_view;
use crate::text::joined;
use vstd::prelude::*;
use vstd::string::*;

verus! {

pub open spec fn hex_digit(d: u32) -> char {
    if d < 10 {
        ((48 + d) as u8) as char
    } else {
        ((87 + d) as u8) as char
    }
}

/// How one character stands in a JSON string: quotes, backslashes and control characters are
/// escaped, everything else stands for itself.
pub open spec fn json_char(c: char) -> Seq<char> {
    let v = c as u32;
    if c == '"' {
        seq!['\\', '"']
    } else if c == '\\' {
        seq!['\\', '\\']
    } else if v == 0x8 {
        seq!['\\', 'b']
    } else if v == 0x9 {
        seq!['\\', 't']
    } else if v == 0xa {
        seq!['\\', 'n']
    } else if v == 0xc {
        seq!['\\', 'f']
    } else if v == 0xd {
        seq!['\\', 'r']
    } else if v < 0x20 {
        seq!['\\', 'u', '0', '0', hex_digit(v / 16), hex_digit(v % 16)]
    } else {
        seq![c]
    }
}

pub open spec fn json_chars(s: Seq<char>) -> Seq<char>
    decreases s.len(),
{
    if s.len() == 0 {
        Seq::empty()
    } else {
        json_chars(s.drop_last()) + json_char(s.last())
    }
}

/// The text as a JSON string.
pub open spec fn json_quoted(s: Seq<char>) -> Seq<char> {
    seq!['"'] + json_chars(s) + seq!['"']
}

/// `serde_json::to_string` on a string slice.
///
/// Claimed: the call succeeds, and gives the text between double quotes, in which `"` and `\`
/// have a backslash in front, backspace, tab, line feed, form feed and carriage return are
/// written as `\b`, `\t`, `\n`, `\f` and `\r`, every other character below U+0020 as `\u00` and
/// two lower-case hex digits, and every other character as it is.
#[verifier::external_body]
pub(crate) fn json_string(text: &str) -> (json: String)
    ensures
        json@ == json_quoted(text@),
{
    serde_json::to_string(text).unwrap_or_default()
}

/// A JSON array of values that are in JSON form already.
pub open spec fn json_array(values: Seq<Seq<char>>) -> Seq<char> {
    "["@ + joined(values, ","@) + "]"@
}

pub fn json_array_text(values: &Vec<String>) -> (json: String)
    ensures
        json@ == json_array(list_view(values@)),
{
    let mut json = String::from_str("[");
    json.append(crate::text::join(values, ",").as_str());
    json.append("]");
    assert(list_view(values@) =~= crate::text::texts(values@));
    json
}

} // verus!
