//! The calls this library makes into other crates (`regex`, `scraper`,
//! `base64`, `serde_json`) and into the parts of `std` that have no
//! specification in vstd. Each function here is trusted: its body is one
//! call plus the conversion of arguments and result to plain values, and its
//! contract names the result (a spec function without a body) or states what
//! the documentation of the called function promises.

use std::collections::BTreeMap;

use base64::Engine;
use vstd::prelude::*;
use vstd::string::StringSliceAdditionalSpecFns;
use vstd::utf8::*;

use crate::common::{spec_replace_token, token_replacement, weave};
use crate::json::JsonValue;
use crate::text::{ascii_lower, ascii_upper, views};

verus! {

// ---------------------------------------------------------------------------
// regex
// ---------------------------------------------------------------------------

/// The capture groups (group 0 is the whole match) of the leftmost match of
/// `pattern` in `text`, as `regex::Regex::captures` reports them; `None`
/// when the pattern does not compile or nothing matches.
pub uninterp spec fn spec_regex_captures(pattern: Seq<char>, text: Seq<char>) -> Option<
    Seq<Option<Seq<char>>>,
>;

/// The capture groups of every successive non-overlapping match, as
/// `regex::Regex::captures_iter` yields them (empty when the pattern does not
/// compile).
pub uninterp spec fn spec_regex_captures_iter(pattern: Seq<char>, text: Seq<char>) -> Seq<
    Seq<Option<Seq<char>>>,
>;

/// The text of every successive non-overlapping match, as
/// `regex::Regex::find_iter` yields them (empty when the pattern does not
/// compile).
pub uninterp spec fn spec_regex_find_iter(pattern: Seq<char>, text: Seq<char>) -> Seq<Seq<char>>;

/// The pieces of `text` between the matches, as `regex::Regex::split` yields
/// them (the whole text, alone, when the pattern does not compile).
pub uninterp spec fn spec_regex_split(pattern: Seq<char>, text: Seq<char>) -> Seq<Seq<char>>;

/// Calls `regex::Regex::new(pattern)` and then `Regex::captures(text)`.
/// Trusted to return exactly `spec_regex_captures(pattern, text)`; nothing
/// more is claimed of the regex engine.
#[verifier::external_body]
pub fn regex_captures(pattern: &str, text: &str) -> (res: Option<Vec<Option<String>>>)
    ensures
        res.deep_view() == spec_regex_captures(pattern@, text@),
{
    match regex::Regex::new(pattern) {
        Ok(re) => re.captures(text).map(
            |c| c.iter().map(|m| m.map(|m| m.as_str().to_string())).collect(),
        ),
        Err(_) => None,
    }
}

/// Calls `regex::Regex::new(pattern)` and then `Regex::captures_iter(text)`.
/// Trusted to return exactly `spec_regex_captures_iter(pattern, text)`.
#[verifier::external_body]
pub fn regex_captures_iter(pattern: &str, text: &str) -> (res: Vec<Vec<Option<String>>>)
    ensures
        res.deep_view() == spec_regex_captures_iter(pattern@, text@),
{
    match regex::Regex::new(pattern) {
        Ok(re) => re.captures_iter(text).map(
            |c| c.iter().map(|m| m.map(|m| m.as_str().to_string())).collect(),
        ).collect(),
        Err(_) => Vec::new(),
    }
}

/// Calls `regex::Regex::new(pattern)` and then `Regex::find_iter(text)`.
/// Trusted to return exactly `spec_regex_find_iter(pattern, text)`.
#[verifier::external_body]
pub fn regex_find_iter(pattern: &str, text: &str) -> (res: Vec<String>)
    ensures
        res.deep_view() == spec_regex_find_iter(pattern@, text@),
{
    match regex::Regex::new(pattern) {
        Ok(re) => re.find_iter(text).map(|m| m.as_str().to_string()).collect(),
        Err(_) => Vec::new(),
    }
}

/// Calls `regex::Regex::new(pattern)` and `Regex::replace_all(text, ..)`,
/// each match (group 0 of its captures) replaced by
/// `token_replacement(match, radix, words)`. Trusted for what `replace_all`
/// does: the text between successive matches (the pieces `Regex::split`
/// yields) is kept and each match (as `Regex::find_iter` yields them) gives
/// way to its replacement; a pattern that does not compile leaves the text
/// as it is.
#[verifier::external_body]
pub fn regex_replace_tokens(pattern: &str, text: &str, radix: usize, words: &Vec<Vec<char>>) -> (res:
    String)
    ensures
        res@ == weave(
            spec_regex_split(pattern@, text@),
            spec_regex_find_iter(pattern@, text@).map_values(
                |t: Seq<char>| spec_replace_token(t, radix, views(words@)),
            ),
            spec_regex_split(pattern@, text@).len(),
        ),
{
    match regex::Regex::new(pattern) {
        Ok(re) => re.replace_all(
            text,
            |c: &regex::Captures| token_replacement(&c[0], radix, words),
        ).into_owned(),
        Err(_) => text.to_string(),
    }
}

// ---------------------------------------------------------------------------
// scraper
// ---------------------------------------------------------------------------

/// For every element of the parsed document that the CSS selector matches,
/// in the order `Html::select` yields them (the order of the parsed tree's
/// nodes): the value of attribute `attr`, the concatenated text of
/// the element, and the element's own HTML. `None` when the selector does not
/// parse.
pub uninterp spec fn spec_html_select(html: Seq<char>, selector: Seq<char>, attr: Seq<char>) -> Option<
    Seq<(Option<Seq<char>>, Seq<char>, Seq<char>)>,
>;

/// For every element the selector `outer` matches, in the order
/// `Html::select` yields them: the attribute `attr` and the text of the first
/// descendant that `ElementRef::select(inner)` yields, if any. `None` when either selector does not parse.
pub uninterp spec fn spec_html_select_within(
    html: Seq<char>,
    outer: Seq<char>,
    inner: Seq<char>,
    attr: Seq<char>,
) -> Option<Seq<Option<(Option<Seq<char>>, Seq<char>)>>>;

/// Calls `scraper::Html::parse_document(html)`, `scraper::Selector::parse`
/// and `Html::select`, reading `ElementRef::attr`, `ElementRef::text` and
/// `ElementRef::html` of each element. Trusted to return exactly
/// `spec_html_select(html, selector, attr)`.
#[verifier::external_body]
pub fn html_select(html: &str, selector: &str, attr: &str) -> (res: Option<
    Vec<(Option<String>, String, String)>,
>)
    ensures
        res.deep_view() == spec_html_select(html@, selector@, attr@),
{
    let doc = scraper::Html::parse_document(html);
    match scraper::Selector::parse(selector) {
        Ok(sel) => Some(
            doc.select(&sel).map(
                |e| (e.attr(attr).map(|v| v.to_string()), e.text().collect::<String>(), e.html()),
            ).collect(),
        ),
        Err(_) => None,
    }
}

/// Calls `scraper::Html::parse_document(html)`, `Html::select(outer)` and,
/// on each element found, `ElementRef::select(inner)`, keeping the first
/// descendant's attribute `attr` and text. Trusted to return exactly
/// `spec_html_select_within(html, outer, inner, attr)`.
#[verifier::external_body]
pub fn html_select_within(html: &str, outer: &str, inner: &str, attr: &str) -> (res: Option<
    Vec<Option<(Option<String>, String)>>,
>)
    ensures
        res.deep_view() == spec_html_select_within(html@, outer@, inner@, attr@),
{
    let doc = scraper::Html::parse_document(html);
    match (scraper::Selector::parse(outer), scraper::Selector::parse(inner)) {
        (Ok(o), Ok(i)) => Some(
            doc.select(&o).map(
                |e| e.select(&i).next().map(
                    |a| (a.attr(attr).map(|v| v.to_string()), a.text().collect::<String>()),
                ),
            ).collect(),
        ),
        _ => None,
    }
}

// ---------------------------------------------------------------------------
// base64, serde_json
// ---------------------------------------------------------------------------

/// The bytes that standard (RFC 4648, padded) base64 decodes `input` to, or
/// `None` when `input` is not valid base64.
pub uninterp spec fn spec_base64_decode(input: Seq<u8>) -> Option<Seq<u8>>;

/// Calls `base64::engine::general_purpose::STANDARD.decode(input)`. Trusted
/// to return exactly `spec_base64_decode(input)`; the decoding rules
/// themselves are not stated.
#[verifier::external_body]
pub fn base64_decode(input: &[u8]) -> (res: Option<Vec<u8>>)
    ensures
        res.deep_view() == spec_base64_decode(input@),
{
    base64::engine::general_purpose::STANDARD.decode(input).ok()
}

/// The entries, in ascending key order, of the JSON object of strings that
/// `bytes` holds, or `None` when `bytes` is not such an object.
pub uninterp spec fn spec_json_string_map(bytes: Seq<u8>) -> Option<Seq<(Seq<char>, Seq<char>)>>;

/// No two entries share a name.
pub open spec fn distinct_names(entries: Seq<(Seq<char>, Seq<char>)>) -> bool {
    forall|a: int, b: int|
        0 <= a < b < entries.len() ==> #[trigger] entries[a].0 != #[trigger] entries[b].0
}

/// Calls `serde_json::from_slice::<BTreeMap<String, String>>(bytes)` and
/// lists the map's entries. Trusted to return exactly
/// `spec_json_string_map(bytes)`, and, since the entries come from a map,
/// no name twice.
#[verifier::external_body]
pub fn json_string_map(bytes: &[u8]) -> (res: Option<Vec<(String, String)>>)
    ensures
        res.deep_view() == spec_json_string_map(bytes@),
        res matches Some(m) ==> distinct_names(m.deep_view()),
{
    serde_json::from_slice::<BTreeMap<String, String>>(bytes).ok().map(
        |m| m.into_iter().collect(),
    )
}

/// The JSON value that `bytes` hold, as `serde_json::from_slice` parses it
/// into a `serde_json::Value` (object members in the map's ascending key
/// order), or `None` when `bytes` are not one JSON value.
pub uninterp spec fn spec_json_value(bytes: Seq<u8>) -> Option<JsonValue>;

#[verifier::external_type_specification]
#[verifier::external_body]
pub struct ExSerdeJsonValue(serde_json::Value);

/// The library's form of a parsed value, variant for variant: members and
/// items in the order the value holds them, a number as `Number::as_i64`.
#[verifier::external_body]
fn json_value_of(v: serde_json::Value) -> JsonValue {
    match v {
        serde_json::Value::Null => JsonValue::Null,
        serde_json::Value::Bool(b) => JsonValue::Bool(b),
        serde_json::Value::Number(n) => JsonValue::Number(n.as_i64()),
        serde_json::Value::String(t) => JsonValue::String(t),
        serde_json::Value::Array(a) => JsonValue::Array(a.into_iter().map(json_value_of).collect()),
        serde_json::Value::Object(m) => JsonValue::Object(
            m.into_iter().map(|(k, x)| (k, json_value_of(x))).collect(),
        ),
    }
}

/// Calls `serde_json::from_slice::<serde_json::Value>(bytes)` and converts
/// the value. Trusted to return exactly `spec_json_value(bytes)`; the JSON
/// grammar itself is not stated.
#[verifier::external_body]
pub fn parse_json(bytes: &[u8]) -> (res: Option<JsonValue>)
    ensures
        res == spec_json_value(bytes@),
{
    serde_json::from_slice::<serde_json::Value>(bytes).ok().map(json_value_of)
}

// ---------------------------------------------------------------------------
// std without a vstd specification
// ---------------------------------------------------------------------------

/// Unicode lowercase mapping of a whole string (`str::to_lowercase`).
pub uninterp spec fn spec_to_lowercase(s: Seq<char>) -> Seq<char>;

/// Unicode uppercase mapping of one character (`char::to_uppercase`).
pub uninterp spec fn spec_char_to_uppercase(c: char) -> Seq<char>;

pub open spec fn all_ascii(s: Seq<char>) -> bool {
    forall|i: int| 0 <= i < s.len() ==> (#[trigger] s[i] as u32) < 128
}

/// Calls `str::to_lowercase`. Trusted to return `spec_to_lowercase(s)`, and,
/// on ASCII text, the text with `A`-`Z` mapped to `a`-`z` and every other
/// character kept.
#[verifier::external_body]
pub fn to_lowercase(s: &str) -> (res: String)
    ensures
        res@ == spec_to_lowercase(s@),
        all_ascii(s@) ==> res@ == s@.map_values(|c: char| ascii_lower(c)),
{
    s.to_lowercase()
}

/// Calls `char::to_uppercase` and collects the characters. Trusted to return
/// `spec_char_to_uppercase(c)`, which for `a`-`z` is the one letter
/// `A`-`Z` and for any other ASCII character is `c` itself.
#[verifier::external_body]
pub fn char_to_uppercase(c: char) -> (res: Vec<char>)
    ensures
        res@ == spec_char_to_uppercase(c),
        (c as u32) < 128 ==> res@ == seq![ascii_upper(c)],
{
    c.to_uppercase().collect()
}

} // verus!
