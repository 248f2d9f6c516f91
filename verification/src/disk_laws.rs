//! Requests and answers say what they hold.
use crate::disk::{asked, Answer, AnswerView, DirEntry, DirEntryView, Request, RequestView};
use crate::path::{path_bytes, PosixPath};
use crate::time::Timestamp;
use vstd::prelude::*;

verus! {

/// A request about a path is about all the bytes of that path, and about no
/// other.
pub proof fn requests_hold_their_paths(p: PosixPath)
    ensures
        Request::IsFile(p)@ == RequestView::IsFile(p@),
        Request::Canonicalize(p)@ == RequestView::Canonicalize(p@),
        Request::CreateDirAll(p)@ == RequestView::CreateDirAll(p@),
        Request::OpenDir(p)@ == RequestView::OpenDir(p@),
        Request::NextEntry(p)@ == RequestView::NextEntry(p@),
        Request::RemoveFile(p)@ == RequestView::RemoveFile(p@),
        Request::OpenAppend(p)@ == RequestView::OpenAppend(p@),
        Request::CurrentDir@ == RequestView::CurrentDir,
        Request::ReadClock@ == RequestView::ReadClock,
{
}

/// A time is set to the time that the request holds, and a directory is made in
/// the parent and with the prefix that the request holds.
pub proof fn requests_hold_their_values(path: PosixPath, time: Timestamp, prefix: Vec<u8>)
    ensures
        (Request::SetModified { path, time })@ == RequestView::SetModified(path@, time@),
        (Request::CreateTempDir { parent: path, prefix })@ == RequestView::CreateTempDir(
            path@,
            prefix@,
        ),
{
}

/// A machine that hands out a request asks for what the request says, and one
/// that hands out none asks for nothing.
pub proof fn what_is_asked_is_the_request(request: Option<Request>)
    ensures
        request matches Some(r) ==> asked(request) == Some(r@),
        request is None ==> asked(request) is None,
{
}

/// An entry of a directory says its path, its time and its size as they are.
pub proof fn entries_hold_their_values(path: PosixPath, modified: Option<Timestamp>, len: u64)
    ensures
        DirEntry::Dir(path)@ == DirEntryView::Dir(path@),
        DirEntry::Other@ == DirEntryView::Other,
        (DirEntry::File { path, modified, len })@ matches DirEntryView::File(p, t, n) && p == path@
            && n == len && (modified matches Some(at) ==> t == Some(at@)) && (modified is None
            ==> t is None),
{
}

/// An answer says what it holds.
pub proof fn answers_hold_their_values<E>(
    e: E,
    p: PosixPath,
    b: bool,
    entry: DirEntry,
    t: Timestamp,
)
    ensures
        Answer::<E>::Done@ == AnswerView::<E>::Done,
        Answer::<E>::Failed(e)@ == AnswerView::<E>::Failed(e),
        Answer::<E>::Path(p)@ == AnswerView::<E>::Path(p@),
        Answer::<E>::Flag(b)@ == AnswerView::<E>::Flag(b),
        Answer::<E>::Entry(entry)@ == AnswerView::<E>::Entry(entry@),
        Answer::<E>::End@ == AnswerView::<E>::End,
        Answer::<E>::Now(t)@ == AnswerView::<E>::Now(t@),
{
}

/// The bytes of a list of paths are those of its paths, one by one.
pub proof fn path_lists_hold_their_paths(paths: Seq<PosixPath>)
    ensures
        path_bytes(paths).len() == paths.len(),
        forall|i: int| 0 <= i < paths.len() ==> #[trigger] path_bytes(paths)[i] == paths[i]@,
{
}

}
