use vstd::prelude::*;
use crate::framer::{next_step, supplied, Action, Fill, Framer};
use crate::uri::{
    file_scheme, is_file_scheme, is_stdin, names_stdin, parse_uri, parts_view, uri_parts,
    SourceError,
};

verus! {

/// Where a finite source reads from.
#[derive(Clone, Debug)]
pub enum FileTarget {
    /// Standard input.
    Stdin,
    /// The regular file at this path.
    Path(String),
}

/// Whether `r` is what opening a finite source on a URI with the parsed
/// `parts` (scheme, host and path) gives: a parse failure, a scheme other than
/// `file`, standard input for `file://-` or the path `-`, or else the URI's
/// path.
pub open spec fn file_target_of(
    parts: Option<(Seq<char>, Seq<char>, Seq<char>)>,
    r: Result<FileTarget, SourceError>,
) -> bool {
    match parts {
        None => r == Err::<FileTarget, SourceError>(SourceError::UriParse),
        Some((scheme, host, path)) => if scheme != file_scheme() {
            r == Err::<FileTarget, SourceError>(SourceError::SchemeMismatch)
        } else if names_stdin(host, path) {
            r == Ok::<FileTarget, SourceError>(FileTarget::Stdin)
        } else {
            &&& r is Ok
            &&& r->Ok_0 is Path
            &&& r->Ok_0->Path_0@ == path
        },
    }
}

/// A finite source (a file or standard input) and the framer over its bytes.
///
/// The byte transport itself is held by the caller, which performs each
/// `Action::Fill` as one blocking read and hands the outcome to `supply`: the
/// bytes read, or `Fill::End` on a zero-byte read or a read error.
pub struct FileDataSource {
    framer: Framer,
    open: bool,
}

impl FileDataSource {
    pub closed spec fn wf(&self) -> bool {
        self.framer.wf()
    }

    /// Whether a source is attached.
    pub closed spec fn is_open(&self) -> bool {
        self.open
    }

    /// Bytes read and not yet returned as records.
    pub closed spec fn pending(&self) -> Seq<u8> {
        self.framer.pending()
    }

    /// Whether the source has reached its end.
    pub closed spec fn ended(&self) -> bool {
        self.framer.ended()
    }

    /// A source that is not open yet.
    pub fn new() -> (r: FileDataSource)
        ensures
            r.wf(),
            !r.is_open(),
            r.pending() == Seq::<u8>::empty(),
            !r.ended(),
    {
        FileDataSource { framer: Framer::new(), open: false }
    }

    /// True if a source is open.
    pub fn readable(&self) -> (r: bool)
        ensures
            r == self.is_open(),
    {
        self.open
    }

    /// Number of bytes read and not yet returned as records.
    pub fn buffered(&self) -> (r: usize)
        requires
            self.wf(),
        ensures
            r == self.pending().len(),
    {
        self.framer.buffered()
    }

    /// Works out where `uri` asks a finite source to read from.
    pub fn resolve(uri: &str) -> (r: Result<FileTarget, SourceError>)
        ensures
            file_target_of(uri_parts(uri@), r),
    {
        FileDataSource::target_from_parts(parse_uri(uri))
    }

    /// Works out where a URI with the parsed `parts` asks a finite source to
    /// read from.
    pub fn target_from_parts(parts: Option<(String, String, String)>) -> (r: Result<FileTarget, SourceError>)
        ensures
            file_target_of(parts_view(parts), r),
    {
        match parts {
            None => Err(SourceError::UriParse),
            Some((scheme, host, path)) => {
                if !is_file_scheme(&scheme) {
                    Err(SourceError::SchemeMismatch)
                } else if is_stdin(&host, &path) {
                    Ok(FileTarget::Stdin)
                } else {
                    Ok(FileTarget::Path(path))
                }
            },
        }
    }

    /// Opens the source named by `uri`. On success any source that was open
    /// is closed, the caller attaches the target that is returned, and the
    /// framer starts empty; on failure nothing changes.
    pub fn open(&mut self, uri: &str) -> (r: Result<FileTarget, SourceError>)
        requires
            old(self).wf(),
        ensures
            final(self).wf(),
            file_target_of(uri_parts(uri@), r),
            r is Ok ==> {
                &&& final(self).is_open()
                &&& final(self).pending() == Seq::<u8>::empty()
                &&& !final(self).ended()
            },
            r is Err ==> {
                &&& final(self).is_open() == old(self).is_open()
                &&& final(self).pending() == old(self).pending()
                &&& final(self).ended() == old(self).ended()
            },
    {
        let r = FileDataSource::resolve(uri);
        if r.is_ok() {
            self.close();
            self.framer = Framer::new();
            self.open = true;
        }
        r
    }

    /// The next step of reading: a record, a request for one more read, or
    /// the end of the stream, on which the source is closed.
    pub fn next_action(&mut self) -> (a: Action)
        requires
            old(self).wf(),
        ensures
            final(self).wf(),
            !old(self).is_open() ==> {
                &&& a is Finish
                &&& !final(self).is_open()
                &&& final(self).pending() == old(self).pending()
                &&& final(self).ended() == old(self).ended()
            },
            old(self).is_open() ==> {
                &&& next_step(
                    old(self).pending(),
                    old(self).ended(),
                    final(self).pending(),
                    final(self).ended(),
                    a,
                )
                &&& final(self).is_open() == !(a is Finish)
            },
    {
        if !self.open {
            return Action::Finish;
        }
        let a = self.framer.next_action();
        if let Action::Finish = a {
            self.close();
        }
        a
    }

    /// Takes the outcome of one read.
    pub fn supply(&mut self, fill: Fill)
        requires
            old(self).wf(),
            fill is Data ==> old(self).pending().len() + fill->Data_0@.len() <= usize::MAX,
        ensures
            final(self).wf(),
            final(self).is_open() == old(self).is_open(),
            supplied(old(self).pending(), old(self).ended(), fill, final(self).pending(), final(self).ended()),
    {
        self.framer.supply(fill);
    }

    /// Detaches the source; a no-op when none is open.
    pub fn close(&mut self)
        requires
            old(self).wf(),
        ensures
            final(self).wf(),
            !final(self).is_open(),
            final(self).pending() == old(self).pending(),
            final(self).ended() == old(self).ended(),
    {
        self.open = false;
    }
}

} // verus!
