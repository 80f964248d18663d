//! Endpoint addresses in canonical form.
//!
//! An indexer is known by the address at which it answers. Addresses are read
//! as absolute URLs, and the serialization that the URL parser gives back is
//! the canonical text by which endpoints are told apart and sorted. The parser
//! is the `url` crate; its results enter the contracts under the two names
//! declared here.

use vstd::prelude::*;

verus! {

/// The serialization of `raw` read as an absolute URL, or the parser's message
/// where `raw` is none.
pub uninterp spec fn canonical_url(raw: Seq<char>) -> Result<Seq<char>, Seq<char>>;

/// The serialization of `reference` resolved against the URL `base`, or the
/// parser's message where `base` is no absolute URL or the reference cannot be
/// resolved against it.
pub uninterp spec fn resolved_url(base: Seq<char>, reference: Seq<char>) -> Result<
    Seq<char>,
    Seq<char>,
>;

/// The texts inside a result of two strings.
pub open spec fn texts_of(outcome: Result<String, String>) -> Result<Seq<char>, Seq<char>> {
    match outcome {
        Ok(text) => Ok(text@),
        Err(message) => Err(message@),
    }
}

/// Calls `url::Url::parse` on `raw` and hands back the URL's serialization, or
/// the text of the parse error. Trusted: the result is what `canonical_url`
/// names; nothing more is claimed of it.
#[verifier::external_body]
pub(crate) fn canonicalize(raw: &str) -> (canonical: Result<String, String>)
    ensures
        texts_of(canonical) == canonical_url(raw@),
{
    match url::Url::parse(raw) {
        Ok(parsed) => Ok(String::from(parsed)),
        Err(error) => Err(error.to_string()),
    }
}

/// Reads `base` with `url::Url::parse`, calls `url::Url::join` on it with
/// `reference`, and hands back the serialization of the URL that comes out, or
/// the text of the error of whichever call failed. Trusted: the result is what
/// `resolved_url` names; nothing more is claimed of it.
#[verifier::external_body]
pub(crate) fn resolve(base: &str, reference: &str) -> (resolved: Result<String, String>)
    ensures
        texts_of(resolved) == resolved_url(base@, reference@),
{
    match url::Url::parse(base) {
        Ok(parsed) => match parsed.join(reference) {
            Ok(joined) => Ok(String::from(joined)),
            Err(error) => Err(error.to_string()),
        },
        Err(error) => Err(error.to_string()),
    }
}

} // verus!
