use vstd::prelude::*;
use crate::uri::{is_live_scheme, live_scheme, parse_uri, parts_view, uri_parts, SourceError};

verus! {

/// Whether `r` is what checking a URI with the parsed `parts` for a live
/// source gives: a parse failure, a scheme other than `tcp`, or success.
pub open spec fn live_uri_check(
    parts: Option<(Seq<char>, Seq<char>, Seq<char>)>,
    r: Result<(), SourceError>) -> bool {
    match parts {
        None => r == Err::<(), SourceError>(SourceError::UriParse),
        Some((scheme, _, _)) => if scheme != live_scheme() {
            r == Err::<(), SourceError>(SourceError::SchemeMismatch)
        } else {
            r == Ok::<(), SourceError>(())
        },
    }
}

/// Checks that `uri` names a live ring-buffer channel, before any attempt to
/// attach to it.
pub fn check_live_uri(uri: &str) -> (r: Result<(), SourceError>)
    ensures
        live_uri_check(uri_parts(uri@), r),
{
    check_live_parts(parse_uri(uri))
}

/// Checks that a URI with the parsed `parts` names a live channel.
pub fn check_live_parts(parts: Option<(String, String, String)>) -> (r: Result<(), SourceError>)
    ensures
        live_uri_check(parts_view(parts), r),
{
    match parts {
        None => Err(SourceError::UriParse),
        Some((scheme, _, _)) => {
            if is_live_scheme(&scheme) {
                Ok(())
            } else {
                Err(SourceError::SchemeMismatch)
            }
        },
    }
}

} // verus!
