//! Creating a cache entry, or updating one that exists.
use crate::disk::{asked, Answer, AnswerView, Progress, Request, RequestView};
use crate::path::{join, needs_current_dir, parent, PosixPath};
use crate::time::Timestamp;
use vstd::prelude::*;

verus! {

/// The directory that holds the entry is created, the entry is opened for
/// appending, which creates it where it is missing, and its modification time is
/// set to the current time. An entry that is named by a relative path is first
/// looked for in the current directory. The first failure ends the task.
///
/// A task that starts with another directory creates that first, and then takes
/// the path of the entry as it is.
#[derive(Debug)]
pub struct TouchTask<E> {
    state: TouchState<E>,
}

#[derive(Debug)]
enum TouchState<E> {
    Preparing { dir: PosixPath, entry: PosixPath },
    Locating(PosixPath),
    Creating { dir: PosixPath, entry: PosixPath },
    Opening(PosixPath),
    Timing(PosixPath),
    Updating { entry: PosixPath, now: Timestamp },
    Finished(Result<PosixPath, E>),
}

/// Where the task stands.
pub enum TouchView<E> {
    /// The first directory is to be created, then the entry of the second value
    /// is to be touched, by the path that it has.
    Preparing(Seq<u8>, Seq<u8>),
    /// The entry is named by a relative path, and the current directory is to be
    /// read.
    Locating(Seq<u8>),
    /// The first directory, which holds the entry, is to be created.
    Creating(Seq<u8>, Seq<u8>),
    /// The entry is to be opened.
    Opening(Seq<u8>),
    /// The entry was opened, and the time is to be read.
    Timing(Seq<u8>),
    /// The modification time of the entry is to be set to the second value.
    Updating(Seq<u8>, int),
    /// The task has ended, with the path of the entry.
    Finished(Result<Seq<u8>, E>),
}

/// Where the task stands when it is known where the entry lies.
pub open spec fn located<E>(entry: Seq<u8>) -> TouchView<E> {
    match parent(entry) {
        Some(dir) => TouchView::Creating(dir, entry),
        None => TouchView::Opening(entry),
    }
}

/// The start of touching `entry`.
pub open spec fn touch_start<E>(entry: Seq<u8>) -> TouchView<E> {
    if needs_current_dir(entry) {
        TouchView::Locating(entry)
    } else {
        located(entry)
    }
}

/// What the task asks for next.
pub open spec fn touch_request<E>(s: TouchView<E>) -> Option<RequestView> {
    match s {
        TouchView::Preparing(dir, _) => Some(RequestView::CreateDirAll(dir)),
        TouchView::Locating(_) => Some(RequestView::CurrentDir),
        TouchView::Creating(dir, _) => Some(RequestView::CreateDirAll(dir)),
        TouchView::Opening(entry) => Some(RequestView::OpenAppend(entry)),
        TouchView::Timing(_) => Some(RequestView::ReadClock),
        TouchView::Updating(entry, now) => Some(RequestView::SetModified(entry, now)),
        TouchView::Finished(_) => None,
    }
}

/// Where the task stands after an answer.
pub open spec fn touch_next<E>(s: TouchView<E>, answer: AnswerView<E>) -> TouchView<E> {
    match (s, answer) {
        (TouchView::Finished(_), _) => s,
        (TouchView::Timing(entry), AnswerView::Now(now)) => TouchView::Updating(entry, now),
        (TouchView::Timing(_), _) => s,
        (_, AnswerView::Failed(e)) => TouchView::Finished(Err(e)),
        (TouchView::Preparing(_, entry), AnswerView::Done) => located(entry),
        (TouchView::Locating(entry), AnswerView::Path(cwd)) => located(join(cwd, entry)),
        (TouchView::Creating(_, entry), AnswerView::Done) => TouchView::Opening(entry),
        (TouchView::Opening(entry), AnswerView::Done) => TouchView::Timing(entry),
        (TouchView::Updating(entry, _), AnswerView::Done) => TouchView::Finished(Ok(entry)),
        _ => s,
    }
}

impl<E> View for TouchTask<E> {
    type V = TouchView<E>;

    closed spec fn view(&self) -> TouchView<E> {
        match self.state {
            TouchState::Preparing { dir, entry } => TouchView::Preparing(dir@, entry@),
            TouchState::Locating(entry) => TouchView::Locating(entry@),
            TouchState::Creating { dir, entry } => TouchView::Creating(dir@, entry@),
            TouchState::Opening(entry) => TouchView::Opening(entry@),
            TouchState::Timing(entry) => TouchView::Timing(entry@),
            TouchState::Updating { entry, now } => TouchView::Updating(entry@, now@),
            TouchState::Finished(Ok(entry)) => TouchView::Finished(Ok(entry@)),
            TouchState::Finished(Err(e)) => TouchView::Finished(Err(e)),
        }
    }
}

impl<E> TouchTask<E> {
    /// Starts touching `entry`.
    pub fn new(entry: PosixPath) -> (r: TouchTask<E>)
        ensures
            r@ == touch_start::<E>(entry@),
    {
        if entry.needs_current_dir() {
            TouchTask { state: TouchState::Locating(entry) }
        } else {
            Self::at(entry)
        }
    }

    /// Starts creating the directory `dir` and then touching `entry`, by the path
    /// that it has.
    pub fn with_dir(dir: PosixPath, entry: PosixPath) -> (r: TouchTask<E>)
        ensures
            r@ == TouchView::<E>::Preparing(dir@, entry@),
    {
        TouchTask { state: TouchState::Preparing { dir, entry } }
    }

    /// Goes on where it is known where the entry lies.
    fn at(entry: PosixPath) -> (r: TouchTask<E>)
        ensures
            r@ == located::<E>(entry@),
    {
        let state = match entry.parent() {
            Some(dir) => TouchState::Creating { dir, entry },
            None => TouchState::Opening(entry),
        };
        TouchTask { state }
    }

    /// What the task asks for next; nothing once it has ended.
    pub fn request(&self) -> (r: Option<Request>)
        ensures
            asked(r) == touch_request(self@),
    {
        match &self.state {
            TouchState::Preparing { dir, .. } => Some(Request::CreateDirAll(dir.clone())),
            TouchState::Locating(_) => Some(Request::CurrentDir),
            TouchState::Creating { dir, .. } => Some(Request::CreateDirAll(dir.clone())),
            TouchState::Opening(entry) => Some(Request::OpenAppend(entry.clone())),
            TouchState::Timing(_) => Some(Request::ReadClock),
            TouchState::Updating { entry, now } => Some(
                Request::SetModified { path: entry.clone(), time: *now },
            ),
            TouchState::Finished(_) => None,
        }
    }

    /// Goes on with the answer to the request.
    pub fn step(self, answer: Answer<E>) -> (r: TouchTask<E>)
        ensures
            r@ == touch_next(self@, answer@),
    {
        let state = match (self.state, answer) {
            (TouchState::Finished(outcome), _) => TouchState::Finished(outcome),
            (TouchState::Timing(entry), Answer::Now(now)) => TouchState::Updating { entry, now },
            (TouchState::Timing(entry), _) => TouchState::Timing(entry),
            (_, Answer::Failed(e)) => TouchState::Finished(Err(e)),
            (TouchState::Preparing { entry, .. }, Answer::Done) => {
                return Self::at(entry);
            },
            (TouchState::Locating(entry), Answer::Path(cwd)) => {
                return Self::at(cwd.join(&entry));
            },
            (TouchState::Creating { entry, .. }, Answer::Done) => TouchState::Opening(entry),
            (TouchState::Opening(entry), Answer::Done) => TouchState::Timing(entry),
            (TouchState::Updating { entry, .. }, Answer::Done) => TouchState::Finished(Ok(entry)),
            (state, _) => state,
        };
        TouchTask { state }
    }

    /// The path of the entry, or what went wrong, once the task has ended.
    pub fn progress(self) -> (r: Progress<TouchTask<E>, Result<PosixPath, E>>)
        ensures
            match r {
                Progress::Waiting(task) => task@ == self@ && self@ !is Finished,
                Progress::Finished(Ok(path)) => self@ == TouchView::<E>::Finished(Ok(path@)),
                Progress::Finished(Err(e)) => self@ == TouchView::<E>::Finished(Err(e)),
            },
    {
        match self.state {
            TouchState::Finished(outcome) => Progress::Finished(outcome),
            state => Progress::Waiting(TouchTask { state }),
        }
    }
}

}
