//! URL validation, through the `url` crate that `reqwest` re-exports.

use vstd::prelude::*;

verus! {

/// Whether `s` parses as an absolute URL, as `reqwest::Url::parse` decides
/// it. The answer depends on the string alone.
pub uninterp spec fn url_valid(s: Seq<char>) -> bool;

/// Relies on `reqwest::Url::parse`: a string parses as an absolute URL or is
/// refused.
#[verifier::external_body]
pub(crate) fn url_is_valid(s: &str) -> (r: bool)
    ensures
        r == url_valid(s@),
{
    reqwest::Url::parse(s).is_ok()
}

} // verus!
