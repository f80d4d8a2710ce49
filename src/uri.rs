use vstd::prelude::*;

verus! {

/// Why a source could not be opened.
#[derive(Clone, Copy, Debug, PartialEq, Eq, Structural)]
pub enum SourceError {
    /// The text is not a URI.
    UriParse,
    /// The URI's scheme does not belong to the source that was asked for.
    SchemeMismatch,
    /// A live channel could not be attached.
    Connection,
    /// A file could not be opened or read.
    Io,
}

/// Scheme, host (empty where there is none) and path of `uri` once parsed as
/// a URL, or `None` where it does not parse.
pub uninterp spec fn uri_parts(uri: Seq<char>) -> Option<(Seq<char>, Seq<char>, Seq<char>)>;

/// The parts of a parsed URI as plain sequences.
pub open spec fn parts_view(r: Option<(String, String, String)>) -> Option<
    (Seq<char>, Seq<char>, Seq<char>),
> {
    match r {
        Some((s, h, p)) => Some((s@, h@, p@)),
        None => None,
    }
}

/// Relies on `url::Url::parse`, read through `Url::scheme`, `Url::host_str`
/// and `Url::path`: the parse depends on the text alone.
#[verifier::external_body]
pub(crate) fn parse_uri(uri: &str) -> (r: Option<(String, String, String)>)
    ensures
        parts_view(r) == uri_parts(uri@),
{
    match url::Url::parse(uri) {
        Ok(u) => Some(
            (u.scheme().to_string(), u.host_str().unwrap_or("").to_string(), u.path().to_string()),
        ),
        Err(_) => None,
    }
}

/// Whether `s` holds exactly the characters of `lit`.
pub fn same_text(s: &String, lit: &str) -> (r: bool)
    ensures
        r == (s@ == lit@),
{
    let t = lit.to_owned();
    *s == t
}

/// The scheme of finite sources.
pub open spec fn file_scheme() -> Seq<char> {
    seq!['f', 'i', 'l', 'e']
}

/// The scheme of live ring-buffer channels.
pub open spec fn live_scheme() -> Seq<char> {
    seq!['t', 'c', 'p']
}

/// The path that stands for standard input.
pub open spec fn stdin_path() -> Seq<char> {
    seq!['-']
}

/// Whether `s` is the file scheme.
pub fn is_file_scheme(s: &String) -> (r: bool)
    ensures
        r == (s@ == file_scheme()),
{
    proof {
        reveal_strlit("file");
        assert("file"@ =~= file_scheme());
    }
    same_text(s, "file")
}

/// Whether `s` is the live-channel scheme.
pub fn is_live_scheme(s: &String) -> (r: bool)
    ensures
        r == (s@ == live_scheme()),
{
    proof {
        reveal_strlit("tcp");
        assert("tcp"@ =~= live_scheme());
    }
    same_text(s, "tcp")
}

/// The path that a URL without any gives.
pub open spec fn root_path() -> Seq<char> {
    seq!['/']
}

/// Whether a URI with host `host` and path `path` names standard input:
/// `file://-` (host `-`, no path of its own) or a bare path `-`.
pub open spec fn names_stdin(host: Seq<char>, path: Seq<char>) -> bool {
    ||| path == stdin_path()
    ||| host == stdin_path() && path == root_path()
}

/// Whether a URI with host `host` and path `path` names standard input.
pub fn is_stdin(host: &String, path: &String) -> (r: bool)
    ensures
        r == names_stdin(host@, path@),
{
    proof {
        reveal_strlit("-");
        reveal_strlit("/");
        assert("-"@ =~= stdin_path());
        assert("/"@ =~= root_path());
    }
    same_text(path, "-") || (same_text(host, "-") && same_text(path, "/"))
}

} // verus!
