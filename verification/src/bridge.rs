//! The calls this library makes into std functions that vstd leaves
//! unspecified and into outside crates, each with the contract it is
//! trusted to meet.

use std::fmt::Write;
use vstd::prelude::*;

verus! {

// ---------------------------------------------------------------------
// std
// ---------------------------------------------------------------------

/// Builds a `String` from its characters with `FromIterator<&char>`;
/// trusted to give exactly these characters, in order.
#[verifier::external_body]
pub(crate) fn string_of(chars: &[char]) -> (res: String)
    ensures
        res@ == chars@,
{
    chars.iter().collect()
}

/// What `str::to_lowercase` returns for a string (full Unicode case mapping).
pub uninterp spec fn lower_case(s: Seq<char>) -> Seq<char>;

/// What `str::to_uppercase` returns for a string (full Unicode case mapping).
pub uninterp spec fn upper_case(s: Seq<char>) -> Seq<char>;

/// Calls `str::to_lowercase`; its result is named, not described.
#[verifier::external_body]
pub(crate) fn to_lowercase(s: &str) -> (res: String)
    ensures
        res@ == lower_case(s@),
{
    s.to_lowercase()
}

/// Calls `str::to_uppercase`; its result is named, not described.
#[verifier::external_body]
pub(crate) fn to_uppercase(s: &str) -> (res: String)
    ensures
        res@ == upper_case(s@),
{
    s.to_uppercase()
}

// ---------------------------------------------------------------------
// regex
// ---------------------------------------------------------------------

/// Whether `regex::Regex::new` accepts the pattern.
pub uninterp spec fn regex_compiles(pattern: Seq<char>) -> bool;

/// What `regex::Regex::captures` finds for a pattern in a haystack: `None`
/// when there is no match, else every group in order (group 0 being the whole
/// match), a group that took no part in the match being `None`.
pub uninterp spec fn regex_captures(pattern: Seq<char>, haystack: Seq<char>) -> Option<
    Seq<Option<Seq<char>>>,
>;

/// The groups of a capture result, by their views.
pub open spec fn groups_view(groups: Option<Vec<Option<String>>>) -> Option<Seq<Option<Seq<char>>>> {
    match groups {
        Some(g) => Some(g.deep_view()),
        None => None,
    }
}

#[verifier::external_type_specification]
#[verifier::external_body]
pub struct ExRegex(regex::Regex);

/// A compiled regular expression; its view is the pattern it was compiled
/// from.
pub struct CompiledRegex {
    re: regex::Regex,
    pattern: Ghost<Seq<char>>,
}

impl View for CompiledRegex {
    type V = Seq<char>;

    closed spec fn view(&self) -> Seq<char> {
        self.pattern@
    }
}

/// Calls `regex::Regex::new`. Trusted: it succeeds exactly when the pattern
/// compiles, and the compiled expression is that of the pattern.
#[verifier::external_body]
pub(crate) fn regex_new(pattern: &str) -> (res: Option<CompiledRegex>)
    ensures
        res is Some <==> regex_compiles(pattern@),
        res matches Some(r) ==> r@ == pattern@,
{
    match regex::Regex::new(pattern) {
        Ok(re) => Some(CompiledRegex { re, pattern: Ghost(pattern@) }),
        Err(_) => None,
    }
}

/// Calls `regex::Regex::captures` and hands back the text of each group.
/// Trusted: the named capture result, which has at least one group (the
/// whole match) when there is a match.
#[verifier::external_body]
pub(crate) fn regex_captures_of(re: &CompiledRegex, haystack: &str) -> (res: Option<Vec<Option<String>>>)
    ensures
        groups_view(res) == regex_captures(re@, haystack@),
        res matches Some(g) ==> g@.len() > 0,
{
    re.re.captures(haystack).map(
        |caps| caps.iter().map(|m| m.map(|m| m.as_str().to_string())).collect(),
    )
}

/// Calls `regex::Regex::is_match`. Trusted: whether there is a match
/// anywhere, which the regex documentation ties to `captures` finding one.
#[verifier::external_body]
pub(crate) fn regex_is_match(re: &CompiledRegex, haystack: &str) -> (res: bool)
    ensures
        res == (regex_captures(re@, haystack@) is Some),
{
    re.re.is_match(haystack)
}

// ---------------------------------------------------------------------
// glob
// ---------------------------------------------------------------------

/// Whether `glob::Pattern::new` accepts the pattern.
pub uninterp spec fn glob_compiles(pattern: Seq<char>) -> bool;

/// What `glob::Pattern::matches` answers for a pattern and a path text.
pub uninterp spec fn glob_matches(pattern: Seq<char>, text: Seq<char>) -> bool;

#[verifier::external_type_specification]
#[verifier::external_body]
pub struct ExGlobPattern(glob::Pattern);

/// A compiled glob pattern; its view is the pattern text it was compiled from.
pub struct CompiledGlob {
    pat: glob::Pattern,
    pattern: Ghost<Seq<char>>,
}

impl View for CompiledGlob {
    type V = Seq<char>;

    closed spec fn view(&self) -> Seq<char> {
        self.pattern@
    }
}

/// Calls `glob::Pattern::new`. Trusted: it succeeds exactly when the pattern
/// compiles, and the compiled pattern is that of the text.
#[verifier::external_body]
pub(crate) fn glob_new(pattern: &str) -> (res: Option<CompiledGlob>)
    ensures
        res is Some <==> glob_compiles(pattern@),
        res matches Some(g) ==> g@ == pattern@,
{
    match glob::Pattern::new(pattern) {
        Ok(pat) => Some(CompiledGlob { pat, pattern: Ghost(pattern@) }),
        Err(_) => None,
    }
}

/// Calls `glob::Pattern::matches`. Trusted: the named answer.
#[verifier::external_body]
pub(crate) fn glob_is_match(pat: &CompiledGlob, text: &str) -> (res: bool)
    ensures
        res == glob_matches(pat@, text@),
{
    pat.pat.matches(text)
}

// ---------------------------------------------------------------------
// sha2 and hex
// ---------------------------------------------------------------------

/// The SHA-256 digest of some bytes.
pub uninterp spec fn sha256_digest(data: Seq<u8>) -> Seq<u8>;

/// Calls `sha2::Sha256::digest`. Trusted: the named digest, 32 bytes long
/// (the output size of `Sha256`).
#[verifier::external_body]
pub(crate) fn sha256(data: &[u8]) -> (res: Vec<u8>)
    ensures
        res@ == sha256_digest(data@),
        res@.len() == 32,
{
    <sha2::Sha256 as sha2::Digest>::digest(data).to_vec()
}

/// The lower-case hexadecimal digit for a nibble.
pub open spec fn hex_digit(n: u8) -> char {
    if n < 10 {
        (n + 48) as char
    } else {
        (n + 87) as char
    }
}

/// Two lower-case hex digits per byte, high nibble first.
pub open spec fn spec_hex(data: Seq<u8>) -> Seq<char>
    decreases data.len(),
{
    if data.len() == 0 {
        seq![]
    } else {
        seq![hex_digit(data[0] / 16), hex_digit(data[0] % 16)] + spec_hex(data.drop_first())
    }
}

/// Calls `hex::encode`. Trusted: two lower-case hex digits per byte, in
/// order, as the crate documents.
#[verifier::external_body]
pub(crate) fn hex_encode(data: &[u8]) -> (res: String)
    ensures
        res@ == spec_hex(data@),
{
    hex::encode(data)
}

// ---------------------------------------------------------------------
// serde_json
// ---------------------------------------------------------------------

/// What parsing a text as a JSON value gives: `None` when it is not JSON,
/// `Some(Some(n))` for an array of `n` elements, `Some(None)` for any other
/// value.
pub uninterp spec fn json_array_len(text: Seq<char>) -> Option<Option<nat>>;

/// Parses `text` with `serde_json::from_str::<serde_json::Value>` and asks
/// `Value::as_array` for the length. Trusted: the named result.
#[verifier::external_body]
pub(crate) fn parse_json_array_len(text: &str) -> (res: Option<Option<usize>>)
    ensures
        res matches Some(Some(n)) ==> json_array_len(text@) == Some(Some(n as nat)),
        res matches Some(None) ==> json_array_len(text@) == Some(None::<nat>),
        res is None ==> json_array_len(text@) is None,
{
    serde_json::from_str::<serde_json::Value>(text).ok().map(|v| v.as_array().map(|a| a.len()))
}

// ---------------------------------------------------------------------
// chrono
// ---------------------------------------------------------------------

/// The UTC date and time of a Unix timestamp in seconds, formatted with a
/// chrono format string, or `None` when chrono cannot represent the time or
/// the format string is not a valid one.
pub uninterp spec fn utc_timestamp_text(secs: int, format: Seq<char>) -> Option<Seq<char>>;

/// Calls `chrono::DateTime::from_timestamp(secs, 0)` and writes the result
/// with `format` into a string, a formatting error giving `None`. Trusted:
/// the named result.
#[verifier::external_body]
pub(crate) fn format_utc_timestamp(secs: i64, format: &str) -> (res: Option<String>)
    ensures
        res matches Some(t) ==> utc_timestamp_text(secs as int, format@) == Some(t@),
        res is None ==> utc_timestamp_text(secs as int, format@) is None,
{
    let dt = chrono::DateTime::from_timestamp(secs, 0)?;
    let mut out = String::new();
    match write!(out, "{}", dt.format(format)) {
        Ok(()) => Some(out),
        Err(_) => None,
    }
}

} // verus!
