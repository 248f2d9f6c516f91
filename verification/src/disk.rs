//! What the cache asks of the operating system, and what it is told in return.
//!
//! The operations that touch the disk are state machines. Each one names the
//! next `Request`, is handed the `Answer` to it, and goes on until it has an
//! outcome. An answer that does not fit the request leaves the machine where it
//! is.
use crate::path::PosixPath;
use crate::time::Timestamp;
use vstd::prelude::*;

verus! {

/// Something that the operating system is asked to do or to tell.
#[derive(Debug)]
pub enum Request {
    /// The current working directory; answered by `Path` or `Failed`.
    CurrentDir,
    /// Whether the path names a regular file; answered by `Flag`.
    IsFile(PosixPath),
    /// The canonical form of the path; answered by `Path` or `Failed`.
    Canonicalize(PosixPath),
    /// Creates the directory and those above it that are missing; answered by
    /// `Done` or `Failed`.
    CreateDirAll(PosixPath),
    /// Starts reading the directory; answered by `Done` or `Failed`.
    OpenDir(PosixPath),
    /// The next entry of the directory, which is the one opened last of those
    /// that have not come to their end; answered by `Entry`, `End` or `Failed`.
    NextEntry(PosixPath),
    /// The current time; answered by `Now`.
    ReadClock,
    /// Removes the file; answered by `Done` or `Failed`.
    RemoveFile(PosixPath),
    /// Opens the file for appending, and creates it where it is missing;
    /// answered by `Done` or `Failed`.
    OpenAppend(PosixPath),
    /// Sets the modification time of the file to `time`; answered by `Done` or
    /// `Failed`.
    SetModified {
        /// The file.
        path: PosixPath,
        /// Its new modification time.
        time: Timestamp,
    },
    /// Creates a directory with a fresh name that starts with `prefix` under
    /// `parent`; answered by `Path` or `Failed`.
    CreateTempDir {
        /// The directory to create it in.
        parent: PosixPath,
        /// What the name starts with.
        prefix: Vec<u8>,
    },
}

/// An entry of a directory. Symbolic links are not followed.
#[derive(Debug)]
pub enum DirEntry {
    /// A directory.
    Dir(PosixPath),
    /// A regular file.
    File {
        /// The path of the file.
        path: PosixPath,
        /// When it was last modified, where the file system tells.
        modified: Option<Timestamp>,
        /// Its size in bytes.
        len: u64,
    },
    /// Anything else.
    Other,
}

/// The answer to a request, with `E` for what went wrong.
#[derive(Debug)]
pub enum Answer<E> {
    /// It is done.
    Done,
    /// It could not be done.
    Failed(E),
    /// The path asked for.
    Path(PosixPath),
    /// Whether it is so.
    Flag(bool),
    /// The next entry of the directory, with its metadata.
    Entry(DirEntry),
    /// The directory has no more entries.
    End,
    /// The current time.
    Now(Timestamp),
}

/// Whether a state machine has come to its outcome.
#[derive(Debug)]
pub enum Progress<M, T> {
    /// It waits for the answer to its request.
    Waiting(M),
    /// It has ended with this outcome.
    Finished(T),
}

/// A `Request` as mathematical values.
pub enum RequestView {
    /// See `Request::CurrentDir`.
    CurrentDir,
    /// See `Request::IsFile`.
    IsFile(Seq<u8>),
    /// See `Request::Canonicalize`.
    Canonicalize(Seq<u8>),
    /// See `Request::CreateDirAll`.
    CreateDirAll(Seq<u8>),
    /// See `Request::OpenDir`.
    OpenDir(Seq<u8>),
    /// See `Request::NextEntry`.
    NextEntry(Seq<u8>),
    /// See `Request::ReadClock`.
    ReadClock,
    /// See `Request::RemoveFile`.
    RemoveFile(Seq<u8>),
    /// See `Request::OpenAppend`.
    OpenAppend(Seq<u8>),
    /// See `Request::SetModified`.
    SetModified(Seq<u8>, int),
    /// See `Request::CreateTempDir`.
    CreateTempDir(Seq<u8>, Seq<u8>),
}

/// A `DirEntry` as mathematical values.
pub enum DirEntryView {
    /// See `DirEntry::Dir`.
    Dir(Seq<u8>),
    /// See `DirEntry::File`: the path, the modification time and the size.
    File(Seq<u8>, Option<int>, int),
    /// See `DirEntry::Other`.
    Other,
}

/// An `Answer` as mathematical values.
pub enum AnswerView<E> {
    /// See `Answer::Done`.
    Done,
    /// See `Answer::Failed`.
    Failed(E),
    /// See `Answer::Path`.
    Path(Seq<u8>),
    /// See `Answer::Flag`.
    Flag(bool),
    /// See `Answer::Entry`.
    Entry(DirEntryView),
    /// See `Answer::End`.
    End,
    /// See `Answer::Now`.
    Now(int),
}

impl View for Request {
    type V = RequestView;

    open spec fn view(&self) -> RequestView {
        match *self {
            Request::CurrentDir => RequestView::CurrentDir,
            Request::IsFile(p) => RequestView::IsFile(p@),
            Request::Canonicalize(p) => RequestView::Canonicalize(p@),
            Request::CreateDirAll(p) => RequestView::CreateDirAll(p@),
            Request::OpenDir(p) => RequestView::OpenDir(p@),
            Request::NextEntry(p) => RequestView::NextEntry(p@),
            Request::ReadClock => RequestView::ReadClock,
            Request::RemoveFile(p) => RequestView::RemoveFile(p@),
            Request::OpenAppend(p) => RequestView::OpenAppend(p@),
            Request::SetModified { path, time } => RequestView::SetModified(path@, time@),
            Request::CreateTempDir { parent, prefix } => RequestView::CreateTempDir(
                parent@,
                prefix@,
            ),
        }
    }
}

impl View for DirEntry {
    type V = DirEntryView;

    open spec fn view(&self) -> DirEntryView {
        match *self {
            DirEntry::Dir(p) => DirEntryView::Dir(p@),
            DirEntry::File { path, modified, len } => DirEntryView::File(
                path@,
                match modified {
                    Some(t) => Some(t@),
                    None => None,
                },
                len as int,
            ),
            DirEntry::Other => DirEntryView::Other,
        }
    }
}

impl<E> View for Answer<E> {
    type V = AnswerView<E>;

    open spec fn view(&self) -> AnswerView<E> {
        match *self {
            Answer::Done => AnswerView::Done,
            Answer::Failed(e) => AnswerView::Failed(e),
            Answer::Path(p) => AnswerView::Path(p@),
            Answer::Flag(b) => AnswerView::Flag(b),
            Answer::Entry(entry) => AnswerView::Entry(entry@),
            Answer::End => AnswerView::End,
            Answer::Now(t) => AnswerView::Now(t@),
        }
    }
}

/// What an optional request asks, as mathematical values.
pub open spec fn asked(request: Option<Request>) -> Option<RequestView> {
    match request {
        Some(r) => Some(r@),
        None => None,
    }
}

}
