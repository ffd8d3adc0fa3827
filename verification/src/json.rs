//! JSON text as the router writes it: strings quoted by `serde_json`, and the
//! few compact objects and arrays built around them here.
//!
//! Members are written in key order, as `serde_json` writes a map, and with
//! no white space between tokens.

use vstd::prelude::*;

use crate::text::{join, joined_with};

verus! {

/// A hexadecimal digit in lower case.
pub open spec fn hex_digit(n: u32) -> char {
    if n < 10 {
        (48 + n) as char
    } else {
        (87 + n) as char
    }
}

/// How one character is written inside a JSON string: the quote, the
/// reverse solidus and the control characters escaped, the short forms
/// where JSON has one, and everything else as it is.
pub open spec fn escape_of(c: char) -> Seq<char> {
    if c == '"' {
        seq!['\\', '"']
    } else if c == '\\' {
        seq!['\\', '\\']
    } else if c == '\u{8}' {
        seq!['\\', 'b']
    } else if c == '\t' {
        seq!['\\', 't']
    } else if c == '\n' {
        seq!['\\', 'n']
    } else if c == '\u{c}' {
        seq!['\\', 'f']
    } else if c == '\r' {
        seq!['\\', 'r']
    } else if (c as u32) < 0x20 {
        seq!['\\', 'u', '0', '0', hex_digit((c as u32) / 16), hex_digit((c as u32) % 16)]
    } else {
        seq![c]
    }
}

/// A text with every character escaped.
pub open spec fn escaped(s: Seq<char>) -> Seq<char>
    decreases s.len(),
{
    if s.len() == 0 {
        Seq::empty()
    } else {
        escaped(s.drop_last()) + escape_of(s.last())
    }
}

/// A text as a JSON string.
pub open spec fn quoted(s: Seq<char>) -> Seq<char> {
    seq!['"'] + escaped(s) + seq!['"']
}

/// Texts as a JSON array of strings.
pub open spec fn string_array(items: Seq<Seq<char>>) -> Seq<char> {
    "["@ + joined_with(items.map_values(|s: Seq<char>| quoted(s)), ","@) + "]"@
}

/// `serde_json::to_string` of a `&str`: the text in double quotes, with the
/// quote, the reverse solidus and every control character escaped --
/// `\b`, `\t`, `\n`, `\f` and `\r` by their short forms, the others as
/// `\u00` and two lower-case hexadecimal digits -- and every other
/// character written as it is. Writing a string cannot fail.
#[verifier::external_body]
pub(crate) fn quote(s: &str) -> (r: String)
    ensures
        r@ == quoted(s@),
{
    serde_json::to_string(s).unwrap_or_default()
}

/// Texts as a JSON array of strings.
pub fn strings_array(items: &[String]) -> (r: String)
    ensures
        r@ == string_array(items@.map_values(|s: String| s@)),
{
    let ghost texts = items@.map_values(|s: String| s@);
    let mut parts: Vec<String> = Vec::new();
    let mut i: usize = 0;
    while i < items.len()
        invariant
            i <= items.len(),
            texts == items@.map_values(|s: String| s@),
            parts@.map_values(|p: String| p@) == texts.subrange(0, i as int).map_values(
                |s: Seq<char>| quoted(s),
            ),
        decreases items.len() - i,
    {
        let ghost before = parts@.map_values(|p: String| p@);
        parts.push(quote(items[i].as_str()));
        assert(parts@.map_values(|p: String| p@) =~= before.push(quoted(texts[i as int])));
        assert(texts.subrange(0, i + 1).map_values(|s: Seq<char>| quoted(s)) =~= texts.subrange(
            0,
            i as int,
        ).map_values(|s: Seq<char>| quoted(s)).push(quoted(texts[i as int])));
        i += 1;
    }
    assert(texts.subrange(0, items.len() as int) =~= texts);
    let mut r = String::from_str("[");
    r.append(join(&parts, ",").as_str());
    r.append("]");
    r
}

/// Texts as a JSON array of strings, from string slices.
pub fn str_array(items: &[&str]) -> (r: String)
    ensures
        r@ == string_array(items@.map_values(|s: &str| s@)),
{
    let ghost texts = items@.map_values(|s: &str| s@);
    let mut parts: Vec<String> = Vec::new();
    let mut i: usize = 0;
    while i < items.len()
        invariant
            i <= items.len(),
            texts == items@.map_values(|s: &str| s@),
            parts@.map_values(|p: String| p@) == texts.subrange(0, i as int).map_values(
                |s: Seq<char>| quoted(s),
            ),
        decreases items.len() - i,
    {
        let ghost before = parts@.map_values(|p: String| p@);
        parts.push(quote(items[i]));
        assert(parts@.map_values(|p: String| p@) =~= before.push(quoted(texts[i as int])));
        assert(texts.subrange(0, i + 1).map_values(|s: Seq<char>| quoted(s)) =~= texts.subrange(
            0,
            i as int,
        ).map_values(|s: Seq<char>| quoted(s)).push(quoted(texts[i as int])));
        i += 1;
    }
    assert(texts.subrange(0, items.len() as int) =~= texts);
    let mut r = String::from_str("[");
    r.append(join(&parts, ",").as_str());
    r.append("]");
    r
}

} // verus!
