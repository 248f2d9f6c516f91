//! Creating a cache directory and evicting files from it.
use crate::disk::{asked, Answer, AnswerView, Progress, Request, RequestView};
use crate::evict::EvictPolicy;
use crate::lists::reverse;
use crate::path::{path_bytes, PosixPath};
use crate::select::{select_next, select_request, select_start, SelectTask, SelectView};
use vstd::prelude::*;

verus! {

/// The directory is created; where there is a policy, the files that it evicts
/// are selected and removed one by one. That a file cannot be removed does not
/// matter, any other failure ends the task.
#[derive(Debug)]
pub struct EnsureTask<E> {
    state: EnsureState<E>,
}

#[derive(Debug)]
enum EnsureState<E> {
    Creating { path: PosixPath, policy: Option<EvictPolicy> },
    Selecting { path: PosixPath, select: SelectTask<E> },
    Removing { path: PosixPath, next: PosixPath, later: Vec<PosixPath> },
    Finished(Result<PosixPath, E>),
}

/// Where the task stands; the first value of each variant is the directory.
pub enum EnsureView<E> {
    /// The directory is to be created.
    Creating(Seq<u8>, Option<EvictPolicy>),
    /// The files to evict are being selected.
    Selecting(Seq<u8>, SelectView<E>),
    /// These files are to be removed.
    Removing(Seq<u8>, Seq<Seq<u8>>),
    /// The task has ended, with the path of the directory.
    Finished(Result<Seq<u8>, E>),
}

/// What the task asks for next.
pub open spec fn ensure_request<E>(s: EnsureView<E>) -> Option<RequestView> {
    match s {
        EnsureView::Creating(path, _) => Some(RequestView::CreateDirAll(path)),
        EnsureView::Selecting(_, select) => select_request(select),
        EnsureView::Removing(_, files) => Some(RequestView::RemoveFile(files[0])),
        EnsureView::Finished(_) => None,
    }
}

/// Where the task stands when `files` are left to be removed.
pub open spec fn before_removal<E>(path: Seq<u8>, files: Seq<Seq<u8>>) -> EnsureView<E> {
    if files.len() > 0 {
        EnsureView::Removing(path, files)
    } else {
        EnsureView::Finished(Ok(path))
    }
}

/// Where the task stands when the selection stands at `select`.
pub open spec fn after_selection<E>(path: Seq<u8>, select: SelectView<E>) -> EnsureView<E> {
    match select {
        SelectView::Finished(Ok(files)) => before_removal(path, files),
        SelectView::Finished(Err(e)) => EnsureView::Finished(Err(e)),
        _ => EnsureView::Selecting(path, select),
    }
}

/// Where the task stands after an answer.
pub open spec fn ensure_next<E>(s: EnsureView<E>, answer: AnswerView<E>) -> EnsureView<E> {
    match s {
        EnsureView::Creating(path, policy) => match answer {
            AnswerView::Done => match policy {
                Some(policy) => EnsureView::Selecting(path, select_start(path, policy)),
                None => EnsureView::Finished(Ok(path)),
            },
            AnswerView::Failed(e) => EnsureView::Finished(Err(e)),
            _ => s,
        },
        EnsureView::Selecting(path, select) => after_selection(path, select_next(select, answer)),
        EnsureView::Removing(path, files) => match answer {
            AnswerView::Done => before_removal(path, files.drop_first()),
            AnswerView::Failed(_) => before_removal(path, files.drop_first()),
            _ => s,
        },
        EnsureView::Finished(_) => s,
    }
}

impl<E> View for EnsureTask<E> {
    type V = EnsureView<E>;

    closed spec fn view(&self) -> EnsureView<E> {
        match self.state {
            EnsureState::Creating { path, policy } => EnsureView::Creating(path@, policy),
            EnsureState::Selecting { path, select } => EnsureView::Selecting(path@, select@),
            EnsureState::Removing { path, next, later } => EnsureView::Removing(
                path@,
                seq![next@] + path_bytes(later@).reverse(),
            ),
            EnsureState::Finished(Ok(path)) => EnsureView::Finished(Ok(path@)),
            EnsureState::Finished(Err(e)) => EnsureView::Finished(Err(e)),
        }
    }
}

impl<E> EnsureTask<E> {
    /// Starts creating the directory `path`, and evicting from it where there is
    /// a policy.
    pub fn new(path: PosixPath, policy: Option<EvictPolicy>) -> (r: EnsureTask<E>)
        ensures
            r@ == EnsureView::<E>::Creating(path@, policy),
    {
        EnsureTask { state: EnsureState::Creating { path, policy } }
    }

    /// Goes on where the files `later`, last to first, are left to be removed.
    fn removing(path: PosixPath, later: Vec<PosixPath>) -> (r: EnsureTask<E>)
        ensures
            r@ == before_removal::<E>(path@, path_bytes(later@).reverse()),
    {
        let ghost files = path_bytes(later@).reverse();
        let mut later = later;
        let state = match later.pop() {
            Some(next) => {
                assert(seq![next@] + path_bytes(later@).reverse() =~= files);
                EnsureState::Removing { path, next, later }
            },
            None => EnsureState::Finished(Ok(path)),
        };
        EnsureTask { state }
    }

    /// What the task asks for next; nothing once it has ended.
    pub fn request(&self) -> (r: Option<Request>)
        ensures
            asked(r) == ensure_request(self@),
    {
        match &self.state {
            EnsureState::Creating { path, .. } => Some(Request::CreateDirAll(path.clone())),
            EnsureState::Selecting { select, .. } => select.request(),
            EnsureState::Removing { next, .. } => Some(Request::RemoveFile(next.clone())),
            EnsureState::Finished(_) => None,
        }
    }

    /// Goes on with the answer to the request.
    pub fn step(self, answer: Answer<E>) -> (r: EnsureTask<E>)
        ensures
            r@ == ensure_next(self@, answer@),
    {
        let state = match self.state {
            EnsureState::Creating { path, policy } => match answer {
                Answer::Done => match policy {
                    Some(policy) => {
                        let select = SelectTask::new(&path, policy);
                        EnsureState::Selecting { path, select }
                    },
                    None => EnsureState::Finished(Ok(path)),
                },
                Answer::Failed(e) => EnsureState::Finished(Err(e)),
                _ => EnsureState::Creating { path, policy },
            },
            EnsureState::Selecting { path, select } => match select.step(answer).progress() {
                Progress::Waiting(select) => EnsureState::Selecting { path, select },
                Progress::Finished(Ok(report)) => {
                    let ghost files = path_bytes(report.marked_for_eviction@);
                    let later = reverse(report.marked_for_eviction);
                    assert(path_bytes(later@).reverse() =~= files);
                    return Self::removing(path, later);
                },
                Progress::Finished(Err(e)) => EnsureState::Finished(Err(e)),
            },
            EnsureState::Removing { path, next, later } => match answer {
                Answer::Done | Answer::Failed(_) => {
                    assert((seq![next@] + path_bytes(later@).reverse()).drop_first()
                        =~= path_bytes(later@).reverse());
                    return Self::removing(path, later);
                },
                _ => EnsureState::Removing { path, next, later },
            },
            EnsureState::Finished(outcome) => EnsureState::Finished(outcome),
        };
        EnsureTask { state }
    }

    /// The path of the directory, or what went wrong, once the task has ended.
    pub fn progress(self) -> (r: Progress<EnsureTask<E>, Result<PosixPath, E>>)
        ensures
            match r {
                Progress::Waiting(task) => task@ == self@ && self@ !is Finished,
                Progress::Finished(Ok(path)) => self@ == EnsureView::<E>::Finished(Ok(path@)),
                Progress::Finished(Err(e)) => self@ == EnsureView::<E>::Finished(Err(e)),
            },
    {
        match self.state {
            EnsureState::Finished(outcome) => Progress::Finished(outcome),
            state => Progress::Waiting(EnsureTask { state }),
        }
    }
}

}
