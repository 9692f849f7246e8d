//! Calls into outside crates, each behind a trusted item whose contract
//! states what the crate's source shows.
use vstd::prelude::*;

use sha2::Digest;

verus! {

/// The SHA-256 digest of a byte sequence.
pub uninterp spec fn sha256(data: Seq<u8>) -> Seq<u8>;

/// Calls `sha2::Sha256::digest` (the `digest::Digest` one-shot hash). The
/// contract claims that the result is the SHA-256 digest of `data`, which
/// is 32 bytes long (`Sha256`'s output size is `U32`).
#[verifier::external_body]
pub(crate) fn sha256_digest(data: &[u8]) -> (r: Vec<u8>)
    ensures
        r@ == sha256(data@),
        r@.len() == 32,
{
    sha2::Sha256::digest(data).to_vec()
}

/// The capture groups of each successive non-overlapping match of the
/// regular expression `pattern` in `haystack` (group 0 first; a group that
/// took no part in the match is `None`), or `None` when `pattern` does not
/// compile.
pub uninterp spec fn regex_captures(pattern: Seq<char>, haystack: Seq<char>) -> Option<
    Seq<Seq<Option<Seq<char>>>>,
>;

/// Calls `regex::Regex::new(pattern)` and, when it compiles,
/// `Regex::captures_iter(haystack)`, turning each `Captures` into the text
/// of its groups. Compiling and matching stand in one item because the
/// matches are a function of the pattern text and the haystack, and a
/// compiled `Regex` is opaque. The contract claims only that the result is
/// the named function of the two texts; what the matches are is left to the
/// `regex` crate.
#[verifier::external_body]
pub(crate) fn regex_captures_all(pattern: &str, haystack: &str) -> (r: Option<
    Vec<Vec<Option<String>>>,
>)
    ensures
        r.deep_view() == regex_captures(pattern@, haystack@),
{
    let re = regex::Regex::new(pattern).ok()?;
    Some(
        re.captures_iter(haystack).map(
            |c| c.iter().map(|m| m.map(|m| m.as_str().to_string())).collect(),
        ).collect(),
    )
}

/// A TOML document read two levels deep: each top-level key with its
/// entries when its value is a table (else `None`), and each entry's key
/// with its text when the entry's value is a string (else `None`); `None`
/// when the text is not a TOML document.
pub uninterp spec fn toml_document(src: Seq<char>) -> Option<
    Seq<(Seq<char>, Option<Seq<(Seq<char>, Option<Seq<char>>)>>)>,
>;

/// Calls `str::parse::<toml::Value>` (`toml::from_str`) and reads the
/// resulting table two levels deep, one arm per `toml::Value` variant that
/// the library reads (`Table`, `String`). The contract claims only that the
/// result is the named function of the text.
#[verifier::external_body]
pub(crate) fn parse_toml(src: &str) -> (r: Option<
    Vec<(String, Option<Vec<(String, Option<String>)>>)>,
>)
    ensures
        r.deep_view() == toml_document(src@),
{
    let toml::Value::Table(top) = src.parse::<toml::Value>().ok()? else { return None };
    Some(top.into_iter().map(|(k, v)| (k, match v {
        toml::Value::Table(t) => Some(t.into_iter().map(|(k2, v2)| (k2, match v2 {
            toml::Value::String(s) => Some(s),
            _ => None,
        })).collect()),
        _ => None,
    })).collect())
}

} // verus!
