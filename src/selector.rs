use vstd::prelude::*;
use crate::uri::{
    file_scheme, is_file_scheme, is_live_scheme, live_scheme, parse_uri, parts_view, uri_parts,
    SourceError,
};

verus! {

/// The kind of source that a URI selects.
#[derive(Clone, Copy, Debug, PartialEq, Eq, Structural)]
pub enum SourceKind {
    /// A file or standard input.
    Finite,
    /// A live ring-buffer channel.
    Live,
}

/// Whether `r` is the kind that a URI with the parsed `parts` selects: `file`
/// gives a finite source, `tcp` a live one, any other scheme is refused.
pub open spec fn selected_kind(
    parts: Option<(Seq<char>, Seq<char>, Seq<char>)>,
    r: Result<SourceKind, SourceError>,
) -> bool {
    match parts {
        None => r == Err::<SourceKind, SourceError>(SourceError::UriParse),
        Some((scheme, _, _)) => if scheme == live_scheme() {
            r == Ok::<SourceKind, SourceError>(SourceKind::Live)
        } else if scheme == file_scheme() {
            r == Ok::<SourceKind, SourceError>(SourceKind::Finite)
        } else {
            r == Err::<SourceKind, SourceError>(SourceError::SchemeMismatch)
        },
    }
}

/// Picks the kind of source for `uri` by its scheme.
pub fn select_source(uri: &str) -> (r: Result<SourceKind, SourceError>)
    ensures
        selected_kind(uri_parts(uri@), r),
{
    select_from_parts(parse_uri(uri))
}

/// Picks the kind of source for a URI with the parsed `parts`.
pub fn select_from_parts(parts: Option<(String, String, String)>) -> (r: Result<SourceKind, SourceError>)
    ensures
        selected_kind(parts_view(parts), r),
{
    match parts {
        None => Err(SourceError::UriParse),
        Some((scheme, _, _)) => {
            if is_live_scheme(&scheme) {
                Ok(SourceKind::Live)
            } else if is_file_scheme(&scheme) {
                Ok(SourceKind::Finite)
            } else {
                Err(SourceError::SchemeMismatch)
            }
        },
    }
}

} // verus!
