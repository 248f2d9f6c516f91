//! Selecting the files under a directory that a policy evicts, by the paths under
//! which they are found.
use crate::disk::{asked, Answer, AnswerView, Progress, Request, RequestView};
use crate::entries::{records, FileEntry, FileRecord};
use crate::evict::{
    build_eviction_report, evicted, record_paths, EvictPolicy, EvictionReport,
};
use crate::path::PosixPath;
use crate::scan::{collect_files, scan_next, scan_request, scan_start, FileScan, ScanView};
use crate::time::Timestamp;
use vstd::prelude::*;

verus! {

/// The files under a directory are collected, the clock is read where the
/// policy has an age limit, and the files to evict are selected. They are named
/// as they were found, by paths that start with the path of the directory.
#[derive(Debug)]
pub struct SelectTask<E> {
    state: SelectState<E>,
}

#[derive(Debug)]
enum SelectState<E> {
    Scanning { policy: EvictPolicy, scan: FileScan<E> },
    Timing { policy: EvictPolicy, found: Vec<FileEntry> },
    Finished(Result<EvictionReport, E>),
}

/// Where a selection stands.
pub enum SelectView<E> {
    /// The files are being collected.
    Scanning(EvictPolicy, ScanView<E>),
    /// These files were collected, and the time is to be read.
    Timing(EvictPolicy, Seq<FileRecord>),
    /// The selection has ended, with the paths in the order of eviction.
    Finished(Result<Seq<Seq<u8>>, E>),
}

/// The start of a selection under `root`.
pub open spec fn select_start<E>(root: Seq<u8>, policy: EvictPolicy) -> SelectView<E> {
    SelectView::Scanning(policy, scan_start(root))
}

/// What a selection asks for next.
pub open spec fn select_request<E>(s: SelectView<E>) -> Option<RequestView> {
    match s {
        SelectView::Scanning(_, scan) => scan_request(scan),
        SelectView::Timing(_, _) => Some(RequestView::ReadClock),
        SelectView::Finished(_) => None,
    }
}

/// The paths of the files that are evicted from those found.
pub open spec fn evicted_paths(
    found: Seq<FileRecord>,
    now: int,
    policy: EvictPolicy,
) -> Seq<Seq<u8>> {
    record_paths(evicted(found, now, policy))
}

/// Where a selection stands when the search stands at `scan`. A policy without
/// an age limit needs no time.
pub open spec fn after_scan<E>(policy: EvictPolicy, scan: ScanView<E>) -> SelectView<E> {
    match scan {
        ScanView::Finished(Ok(found)) => if policy.max_age is Some {
            SelectView::Timing(policy, found)
        } else {
            SelectView::Finished(Ok(evicted_paths(found, 0, policy)))
        },
        ScanView::Finished(Err(e)) => SelectView::Finished(Err(e)),
        _ => SelectView::Scanning(policy, scan),
    }
}

/// Where a selection stands after an answer.
pub open spec fn select_next<E>(s: SelectView<E>, answer: AnswerView<E>) -> SelectView<E> {
    match s {
        SelectView::Scanning(policy, scan) => after_scan(policy, scan_next(scan, answer)),
        SelectView::Timing(policy, found) => match answer {
            AnswerView::Now(now) => SelectView::Finished(
                Ok(evicted_paths(found, now, policy)),
            ),
            _ => s,
        },
        SelectView::Finished(_) => s,
    }
}

impl<E> View for SelectTask<E> {
    type V = SelectView<E>;

    closed spec fn view(&self) -> SelectView<E> {
        match self.state {
            SelectState::Scanning { policy, scan } => SelectView::Scanning(policy, scan@),
            SelectState::Timing { policy, found } => SelectView::Timing(policy, records(found@)),
            SelectState::Finished(Ok(report)) => SelectView::Finished(Ok(report@)),
            SelectState::Finished(Err(e)) => SelectView::Finished(Err(e)),
        }
    }
}

impl<E> SelectTask<E> {
    /// Starts the selection of the files under `root` that `policy` evicts.
    pub fn new(root: &PosixPath, policy: EvictPolicy) -> (r: SelectTask<E>)
        ensures
            r@ == select_start::<E>(root@, policy),
    {
        SelectTask { state: SelectState::Scanning { policy, scan: collect_files(root) } }
    }

    /// What the selection asks for next; nothing once it has ended.
    pub fn request(&self) -> (r: Option<Request>)
        ensures
            asked(r) == select_request(self@),
    {
        match &self.state {
            SelectState::Scanning { scan, .. } => scan.request(),
            SelectState::Timing { .. } => Some(Request::ReadClock),
            SelectState::Finished(_) => None,
        }
    }

    /// Goes on with the answer to the request.
    pub fn step(self, answer: Answer<E>) -> (r: SelectTask<E>)
        ensures
            r@ == select_next(self@, answer@),
    {
        let state = match self.state {
            SelectState::Scanning { policy, scan } => match scan.step(answer).progress() {
                Progress::Waiting(scan) => SelectState::Scanning { policy, scan },
                Progress::Finished(Ok(found)) => if policy.max_age.is_some() {
                    SelectState::Timing { policy, found }
                } else {
                    SelectState::Finished(
                        Ok(build_eviction_report(found, Timestamp::unix_epoch(), &policy)),
                    )
                },
                Progress::Finished(Err(e)) => SelectState::Finished(Err(e)),
            },
            SelectState::Timing { policy, found } => match answer {
                Answer::Now(now) => SelectState::Finished(
                    Ok(build_eviction_report(found, now, &policy)),
                ),
                _ => SelectState::Timing { policy, found },
            },
            SelectState::Finished(outcome) => SelectState::Finished(outcome),
        };
        SelectTask { state }
    }

    /// The selected files, or what went wrong, once the selection has ended.
    pub fn progress(self) -> (r: Progress<SelectTask<E>, Result<EvictionReport, E>>)
        ensures
            match r {
                Progress::Waiting(task) => task@ == self@ && self@ !is Finished,
                Progress::Finished(Ok(report)) => self@ == SelectView::<E>::Finished(
                    Ok(report@),
                ),
                Progress::Finished(Err(e)) => self@ == SelectView::<E>::Finished(Err(e)),
            },
    {
        match self.state {
            SelectState::Finished(outcome) => Progress::Finished(outcome),
            state => Progress::Waiting(SelectTask { state }),
        }
    }
}

}
