//! The calls that leave the verified code: pattern matching, JSON parsing,
//! calendar formatting, the clock, and a few functions of the standard
//! library. Each contract here is taken on trust; the doc comment says what
//! it claims of the function called.

use vstd::prelude::*;
use vstd::utf8::{decode_utf8, valid_utf8};
use std::collections::BTreeMap;
use crate::index::btree::lists_range;

verus! {

/// Whether the pattern, compiled by the `regex` crate, matches somewhere in
/// the text; `None` where the pattern does not compile.
pub uninterp spec fn regex_match(pattern: Seq<char>, text: Seq<char>) -> Option<bool>;

/// Whether `serde_json` parses the text as one JSON value.
pub uninterp spec fn json_valid(text: Seq<char>) -> bool;

/// The RFC 3339 form that `chrono` gives the instant, in UTC; `None` where
/// the instant is outside the range of `chrono`'s calendar.
pub uninterp spec fn rfc3339_text(seconds: i64) -> Option<Seq<char>>;

/// The pieces that `str::split_whitespace` cuts the text into.
pub uninterp spec fn whitespace_tokens(text: Seq<char>) -> Seq<Seq<char>>;

/// The views of a sequence of strings.
pub open spec fn views_of(tokens: Seq<String>) -> Seq<Seq<char>> {
    tokens.map_values(|token: String| token@)
}

/// `regex::Regex::new` followed by `Regex::is_match`. Both depend on the
/// pattern and the text alone, so the outcome is given a name; nothing else is
/// claimed of it.
#[verifier::external_body]
pub(crate) fn regex_is_match(pattern: &str, text: &str) -> (found: Option<bool>)
    ensures
        found == regex_match(pattern@, text@),
{
    match regex::Regex::new(pattern) {
        Ok(compiled) => Some(compiled.is_match(text)),
        Err(_) => None,
    }
}

/// `serde_json::from_str` into a `serde_json::Value`: whether it succeeds
/// depends on the text alone, so the outcome is given a name.
#[verifier::external_body]
pub(crate) fn json_is_valid(text: &str) -> (valid: bool)
    ensures
        valid == json_valid(text@),
{
    serde_json::from_str::<serde_json::Value>(text).is_ok()
}

/// `chrono::DateTime::from_timestamp` with no nanoseconds, then
/// `DateTime::to_rfc3339`. The first returns `None` outside its range and the
/// second does not fail; the text depends on the seconds alone and is given a
/// name.
#[verifier::external_body]
pub(crate) fn format_rfc3339(seconds: i64) -> (text: Option<String>)
    ensures
        text is Some <==> rfc3339_text(seconds) is Some,
        text is Some ==> text->0@ == rfc3339_text(seconds)->0,
{
    match chrono::DateTime::from_timestamp(seconds, 0) {
        Some(instant) => Some(instant.to_rfc3339()),
        None => None,
    }
}

/// `chrono::Utc::now`, as whole seconds since the epoch. Nothing is claimed
/// of the clock.
#[verifier::external_body]
pub(crate) fn current_seconds() -> i64 {
    chrono::Utc::now().timestamp()
}

/// `String::from_utf8`: succeeds exactly on well-formed UTF-8 and then holds
/// the characters that the bytes encode.
#[verifier::external_body]
pub(crate) fn string_from_utf8(bytes: Vec<u8>) -> (text: Option<String>)
    ensures
        text is Some <==> valid_utf8(bytes@),
        text is Some ==> text->0@ == decode_utf8(bytes@),
{
    match String::from_utf8(bytes) {
        Ok(text) => Some(text),
        Err(_) => None,
    }
}

/// `str::split_whitespace`, each piece copied into a `String`. The pieces
/// depend on the text alone and are given a name.
#[verifier::external_body]
pub(crate) fn split_whitespace(text: &str) -> (tokens: Vec<String>)
    ensures
        views_of(tokens@) == whitespace_tokens(text@),
{
    text.split_whitespace().map(|token| token.to_string()).collect()
}

/// `BTreeMap::range` over `start..end`, each item copied out. The standard
/// library documents that the iterator visits the entries with keys in the
/// range, in ascending order of key; it panics where `start` is greater than
/// `end`, which the precondition leaves out.
#[verifier::external_body]
pub(crate) fn btree_range(tree: &BTreeMap<u128, u64>, start: u128, end: u128) -> (pairs: Vec<
    (u128, u64),
>)
    requires
        start <= end,
    ensures
        lists_range(tree@, start as int, end as int, pairs@),
{
    tree.range(start..end).map(|(key, offset)| (*key, *offset)).collect()
}

} // verus!
