//! Collecting the regular files under a directory.
use crate::disk::{asked, Answer, AnswerView, DirEntry, DirEntryView, Progress, Request, RequestView};
use crate::entries::{records, FileEntry, FileRecord};
use crate::path::{path_bytes, PosixPath};
use crate::time::Timestamp;
use vstd::prelude::*;

verus! {

/// A search for the regular files under a directory, at any depth.
///
/// The entries of a directory are taken in the order in which they are read,
/// and a directory among them is searched before the next entry is read. The
/// first failure ends the search.
#[derive(Debug)]
pub struct FileScan<E> {
    state: ScanState<E>,
}

#[derive(Debug)]
enum ScanState<E> {
    Opening { dir: PosixPath, open: Vec<PosixPath>, found: Vec<FileEntry> },
    Reading { open: Vec<PosixPath>, dir: PosixPath, found: Vec<FileEntry> },
    Finished(Result<Vec<FileEntry>, E>),
}

/// Where a search stands.
pub enum ScanView<E> {
    /// The directory `dir` is to be opened, inside the directories `open`.
    Opening {
        /// The directory to open.
        dir: Seq<u8>,
        /// The directories that are being read, outermost first.
        open: Seq<Seq<u8>>,
        /// The files found so far.
        found: Seq<FileRecord>,
    },
    /// The last of the directories `open` is being read.
    Reading {
        /// The directories that are being read, outermost first.
        open: Seq<Seq<u8>>,
        /// The files found so far.
        found: Seq<FileRecord>,
    },
    /// The search has ended.
    Finished(Result<Seq<FileRecord>, E>),
}

/// The start of a search under `root`.
pub open spec fn scan_start<E>(root: Seq<u8>) -> ScanView<E> {
    ScanView::Opening { dir: root, open: seq![], found: seq![] }
}

/// What a search asks for next.
pub open spec fn scan_request<E>(s: ScanView<E>) -> Option<RequestView> {
    match s {
        ScanView::Opening { dir, .. } => Some(RequestView::OpenDir(dir)),
        ScanView::Reading { open, .. } => Some(RequestView::NextEntry(open.last())),
        ScanView::Finished(_) => None,
    }
}

/// A file as it is recorded: one without a modification time counts as modified
/// at the epoch.
pub open spec fn found_file(path: Seq<u8>, modified: Option<int>, len: int) -> FileRecord {
    FileRecord {
        path,
        modified: match modified {
            Some(t) => t,
            None => 0,
        },
        len,
    }
}

/// Where a search stands after an answer.
pub open spec fn scan_next<E>(s: ScanView<E>, answer: AnswerView<E>) -> ScanView<E> {
    match s {
        ScanView::Opening { dir, open, found } => match answer {
            AnswerView::Done => ScanView::Reading { open: open.push(dir), found },
            AnswerView::Failed(e) => ScanView::Finished(Err(e)),
            _ => s,
        },
        ScanView::Reading { open, found } => match answer {
            AnswerView::Entry(DirEntryView::Dir(path)) => ScanView::Opening {
                dir: path,
                open,
                found,
            },
            AnswerView::Entry(DirEntryView::File(path, modified, len)) => ScanView::Reading {
                open,
                found: found.push(found_file(path, modified, len)),
            },
            AnswerView::End => if open.len() > 1 {
                ScanView::Reading { open: open.drop_last(), found }
            } else {
                ScanView::Finished(Ok(found))
            },
            AnswerView::Failed(e) => ScanView::Finished(Err(e)),
            _ => s,
        },
        ScanView::Finished(_) => s,
    }
}

impl<E> View for FileScan<E> {
    type V = ScanView<E>;

    closed spec fn view(&self) -> ScanView<E> {
        match self.state {
            ScanState::Opening { dir, open, found } => ScanView::Opening {
                dir: dir@,
                open: path_bytes(open@),
                found: records(found@),
            },
            ScanState::Reading { open, dir, found } => ScanView::Reading {
                open: path_bytes(open@).push(dir@),
                found: records(found@),
            },
            ScanState::Finished(Ok(found)) => ScanView::Finished(Ok(records(found@))),
            ScanState::Finished(Err(e)) => ScanView::Finished(Err(e)),
        }
    }
}

/// Starts collecting the regular files under `root`.
pub fn collect_files<E>(root: &PosixPath) -> (r: FileScan<E>)
    ensures
        r@ == scan_start::<E>(root@),
{
    let open: Vec<PosixPath> = Vec::new();
    let found: Vec<FileEntry> = Vec::new();
    assert(path_bytes(open@) =~= seq![]);
    assert(records(found@) =~= seq![]);
    FileScan { state: ScanState::Opening { dir: root.clone(), open, found } }
}

impl<E> FileScan<E> {
    /// What the search asks for next; nothing once it has ended.
    pub fn request(&self) -> (r: Option<Request>)
        ensures
            asked(r) == scan_request(self@),
    {
        match &self.state {
            ScanState::Opening { dir, .. } => Some(Request::OpenDir(dir.clone())),
            ScanState::Reading { open, dir, .. } => {
                assert(path_bytes(open@).push(dir@).last() == dir@);
                Some(Request::NextEntry(dir.clone()))
            },
            ScanState::Finished(_) => None,
        }
    }

    /// Goes on with the answer to the request.
    pub fn step(self, answer: Answer<E>) -> (r: FileScan<E>)
        ensures
            r@ == scan_next(self@, answer@),
    {
        let state = match self.state {
            ScanState::Opening { dir, open, found } => match answer {
                Answer::Done => ScanState::Reading { open, dir, found },
                Answer::Failed(e) => ScanState::Finished(Err(e)),
                _ => ScanState::Opening { dir, open, found },
            },
            ScanState::Reading { mut open, dir, mut found } => match answer {
                Answer::Entry(DirEntry::Dir(path)) => {
                    let ghost before = path_bytes(open@);
                    open.push(dir);
                    assert(path_bytes(open@) =~= before.push(dir@));
                    ScanState::Opening { dir: path, open, found }
                },
                Answer::Entry(DirEntry::File { path, modified, len }) => {
                    let modified = match modified {
                        Some(t) => t,
                        None => Timestamp::unix_epoch(),
                    };
                    let ghost before = records(found@);
                    found.push(FileEntry { path, modified, len });
                    assert(records(found@) =~= before.push(found@.last()@));
                    ScanState::Reading { open, dir, found }
                },
                Answer::End => {
                    let ghost before = path_bytes(open@).push(dir@);
                    match open.pop() {
                        Some(outer) => {
                            assert(path_bytes(open@).push(outer@) =~= before.drop_last());
                            ScanState::Reading { open, dir: outer, found }
                        },
                        None => ScanState::Finished(Ok(found)),
                    }
                },
                Answer::Failed(e) => ScanState::Finished(Err(e)),
                _ => ScanState::Reading { open, dir, found },
            },
            ScanState::Finished(outcome) => ScanState::Finished(outcome),
        };
        FileScan { state }
    }

    /// The files found, or what went wrong, once the search has ended.
    pub fn progress(self) -> (r: Progress<FileScan<E>, Result<Vec<FileEntry>, E>>)
        ensures
            match r {
                Progress::Waiting(scan) => scan@ == self@ && self@ !is Finished,
                Progress::Finished(Ok(found)) => self@ == ScanView::<E>::Finished(
                    Ok(records(found@)),
                ),
                Progress::Finished(Err(e)) => self@ == ScanView::<E>::Finished(Err(e)),
            },
    {
        match self.state {
            ScanState::Finished(outcome) => Progress::Finished(outcome),
            state => Progress::Waiting(FileScan { state }),
        }
    }
}

}
