//! Reporting the files under a directory that a policy evicts, by absolute paths.
use crate::disk::{asked, Answer, AnswerView, Progress, Request, RequestView};
use crate::evict::{EvictPolicy, EvictionReport};
use crate::path::{needs_current_dir, path_bytes, resolved, PosixPath};
use crate::select::{select_next, select_request, select_start, SelectTask, SelectView};
use vstd::prelude::*;

verus! {

/// The files are selected as for eviction. Where some of them were found by
/// relative paths, the current directory is read, and the report names them as
/// they are seen from there.
#[derive(Debug)]
pub struct ReportTask<E> {
    state: ReportState<E>,
}

#[derive(Debug)]
enum ReportState<E> {
    Selecting(SelectTask<E>),
    Locating(Vec<PosixPath>),
    Finished(Result<EvictionReport, E>),
}

/// Where a report stands.
pub enum ReportView<E> {
    /// The files are being selected.
    Selecting(SelectView<E>),
    /// These files were selected, some by relative paths, and the current
    /// directory is to be read.
    Locating(Seq<Seq<u8>>),
    /// The report has ended, with the paths in the order of eviction.
    Finished(Result<Seq<Seq<u8>>, E>),
}

/// Whether it takes the current directory to say where the paths lie.
pub open spec fn some_need_current_dir(paths: Seq<Seq<u8>>) -> bool {
    exists|i: int| 0 <= i < paths.len() && needs_current_dir(#[trigger] paths[i])
}

/// The paths as they are seen from the current directory `cwd`.
pub open spec fn resolved_paths(cwd: Seq<u8>, paths: Seq<Seq<u8>>) -> Seq<Seq<u8>> {
    Seq::new(paths.len(), |i: int| resolved(cwd, paths[i]))
}

/// The start of a report on the files under `root`.
pub open spec fn report_start<E>(root: Seq<u8>, policy: EvictPolicy) -> ReportView<E> {
    ReportView::Selecting(select_start(root, policy))
}

/// What a report asks for next.
pub open spec fn report_request<E>(s: ReportView<E>) -> Option<RequestView> {
    match s {
        ReportView::Selecting(select) => select_request(select),
        ReportView::Locating(_) => Some(RequestView::CurrentDir),
        ReportView::Finished(_) => None,
    }
}

/// Where a report stands when these files were selected.
pub open spec fn before_location<E>(paths: Seq<Seq<u8>>) -> ReportView<E> {
    if some_need_current_dir(paths) {
        ReportView::Locating(paths)
    } else {
        ReportView::Finished(Ok(paths))
    }
}

/// Where a report stands when the selection stands at `select`.
pub open spec fn after_select<E>(select: SelectView<E>) -> ReportView<E> {
    match select {
        SelectView::Finished(Ok(paths)) => before_location(paths),
        SelectView::Finished(Err(e)) => ReportView::Finished(Err(e)),
        _ => ReportView::Selecting(select),
    }
}

/// Where a report stands after an answer.
pub open spec fn report_next<E>(s: ReportView<E>, answer: AnswerView<E>) -> ReportView<E> {
    match s {
        ReportView::Selecting(select) => after_select(select_next(select, answer)),
        ReportView::Locating(paths) => match answer {
            AnswerView::Path(cwd) => ReportView::Finished(Ok(resolved_paths(cwd, paths))),
            AnswerView::Failed(e) => ReportView::Finished(Err(e)),
            _ => s,
        },
        ReportView::Finished(_) => s,
    }
}

impl<E> View for ReportTask<E> {
    type V = ReportView<E>;

    closed spec fn view(&self) -> ReportView<E> {
        match self.state {
            ReportState::Selecting(select) => ReportView::Selecting(select@),
            ReportState::Locating(paths) => ReportView::Locating(path_bytes(paths@)),
            ReportState::Finished(Ok(report)) => ReportView::Finished(Ok(report@)),
            ReportState::Finished(Err(e)) => ReportView::Finished(Err(e)),
        }
    }
}

/// Whether it takes the current directory to say where the paths lie.
fn any_needs_current_dir(paths: &Vec<PosixPath>) -> (r: bool)
    ensures
        r == some_need_current_dir(path_bytes(paths@)),
{
    let ghost all = path_bytes(paths@);
    let mut i: usize = 0;
    while i < paths.len()
        invariant
            all == path_bytes(paths@),
            i <= paths@.len(),
            forall|k: int| 0 <= k < i ==> !needs_current_dir(#[trigger] all[k]),
        decreases paths@.len() - i,
    {
        if paths[i].needs_current_dir() {
            assert(needs_current_dir(all[i as int]));
            return true;
        }
        i = i + 1;
    }
    false
}

/// The paths as they are seen from the current directory `cwd`.
fn resolve_all(cwd: &PosixPath, paths: &Vec<PosixPath>) -> (r: Vec<PosixPath>)
    ensures
        path_bytes(r@) == resolved_paths(cwd@, path_bytes(paths@)),
{
    let ghost all = resolved_paths(cwd@, path_bytes(paths@));
    let mut out: Vec<PosixPath> = Vec::new();
    let mut i: usize = 0;
    while i < paths.len()
        invariant
            all == resolved_paths(cwd@, path_bytes(paths@)),
            i <= paths@.len(),
            path_bytes(out@) == all.take(i as int),
        decreases paths@.len() - i,
    {
        let ghost before = path_bytes(out@);
        out.push(paths[i].seen_from(cwd));
        i = i + 1;
        assert(path_bytes(out@) =~= before.push(all[i - 1]));
        assert(all.take(i as int) =~= before.push(all[i - 1]));
    }
    assert(all.take(i as int) =~= all);
    out
}

impl<E> ReportTask<E> {
    /// Starts the report on the files under `root` that `policy` evicts.
    pub fn new(root: &PosixPath, policy: EvictPolicy) -> (r: ReportTask<E>)
        ensures
            r@ == report_start::<E>(root@, policy),
    {
        ReportTask { state: ReportState::Selecting(SelectTask::new(root, policy)) }
    }

    /// What the report asks for next; nothing once it has ended.
    pub fn request(&self) -> (r: Option<Request>)
        ensures
            asked(r) == report_request(self@),
    {
        match &self.state {
            ReportState::Selecting(select) => select.request(),
            ReportState::Locating(_) => Some(Request::CurrentDir),
            ReportState::Finished(_) => None,
        }
    }

    /// Goes on with the answer to the request.
    pub fn step(self, answer: Answer<E>) -> (r: ReportTask<E>)
        ensures
            r@ == report_next(self@, answer@),
    {
        let state = match self.state {
            ReportState::Selecting(select) => match select.step(answer).progress() {
                Progress::Waiting(select) => ReportState::Selecting(select),
                Progress::Finished(Ok(report)) => if any_needs_current_dir(
                    &report.marked_for_eviction,
                ) {
                    ReportState::Locating(report.marked_for_eviction)
                } else {
                    ReportState::Finished(Ok(report))
                },
                Progress::Finished(Err(e)) => ReportState::Finished(Err(e)),
            },
            ReportState::Locating(paths) => match answer {
                Answer::Path(cwd) => ReportState::Finished(
                    Ok(EvictionReport { marked_for_eviction: resolve_all(&cwd, &paths) }),
                ),
                Answer::Failed(e) => ReportState::Finished(Err(e)),
                _ => ReportState::Locating(paths),
            },
            ReportState::Finished(outcome) => ReportState::Finished(outcome),
        };
        ReportTask { state }
    }

    /// The report, or what went wrong, once it has ended.
    pub fn progress(self) -> (r: Progress<ReportTask<E>, Result<EvictionReport, E>>)
        ensures
            match r {
                Progress::Waiting(task) => task@ == self@ && self@ !is Finished,
                Progress::Finished(Ok(report)) => self@ == ReportView::<E>::Finished(
                    Ok(report@),
                ),
                Progress::Finished(Err(e)) => self@ == ReportView::<E>::Finished(Err(e)),
            },
    {
        match self.state {
            ReportState::Finished(outcome) => Progress::Finished(outcome),
            state => Progress::Waiting(ReportTask { state }),
        }
    }
}

}
