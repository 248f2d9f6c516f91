//! A cache group of one process, with a subgroup for each of its threads.
use crate::disk::{asked, Answer, AnswerView, Progress, Request, RequestView};
use crate::ensure::{EnsureTask, EnsureView};
use crate::group::CacheGroup;
use crate::naming::{
    process_dir_prefix, process_dir_prefix_bytes, thread_dir_name, thread_dir_name_bytes,
};
use crate::path::{join, PosixPath};
use crate::root::CacheRoot;
use crate::touch::{TouchTask, TouchView};
use vstd::prelude::*;

verus! {

/// A group that a process has to itself, under a base group. Whoever made the
/// directory removes it when the process is done with it.
#[derive(Debug)]
pub struct ProcessScopedCacheGroup {
    process_group: CacheGroup,
}

impl View for ProcessScopedCacheGroup {
    type V = Seq<u8>;

    /// The path of the process's directory.
    closed spec fn view(&self) -> Seq<u8> {
        self.process_group@
    }
}

/// Making the group of a process: the base group is created, then a directory
/// with a fresh name in it. The first failure ends the task.
#[derive(Debug)]
pub struct ScopeTask<E> {
    state: ScopeState<E>,
}

#[derive(Debug)]
enum ScopeState<E> {
    Creating { base: PosixPath, prefix: Vec<u8> },
    Naming { base: PosixPath, prefix: Vec<u8> },
    Finished(Result<ProcessScopedCacheGroup, E>),
}

/// Where the task stands.
pub enum ScopeView<E> {
    /// The base group is to be created; the second value is what the name of the
    /// process's directory starts with.
    Creating(Seq<u8>, Seq<u8>),
    /// The process's directory is to be created.
    Naming(Seq<u8>, Seq<u8>),
    /// The task has ended, with the path of the process's directory.
    Finished(Result<Seq<u8>, E>),
}

/// What the task asks for next.
pub open spec fn scope_request<E>(s: ScopeView<E>) -> Option<RequestView> {
    match s {
        ScopeView::Creating(base, _) => Some(RequestView::CreateDirAll(base)),
        ScopeView::Naming(base, prefix) => Some(RequestView::CreateTempDir(base, prefix)),
        ScopeView::Finished(_) => None,
    }
}

/// Where the task stands after an answer.
pub open spec fn scope_next<E>(s: ScopeView<E>, answer: AnswerView<E>) -> ScopeView<E> {
    match s {
        ScopeView::Creating(base, prefix) => match answer {
            AnswerView::Done => ScopeView::Naming(base, prefix),
            AnswerView::Failed(e) => ScopeView::Finished(Err(e)),
            _ => s,
        },
        ScopeView::Naming(_, _) => match answer {
            AnswerView::Path(dir) => ScopeView::Finished(Ok(dir)),
            AnswerView::Failed(e) => ScopeView::Finished(Err(e)),
            _ => s,
        },
        ScopeView::Finished(_) => s,
    }
}

impl<E> View for ScopeTask<E> {
    type V = ScopeView<E>;

    closed spec fn view(&self) -> ScopeView<E> {
        match self.state {
            ScopeState::Creating { base, prefix } => ScopeView::Creating(base@, prefix@),
            ScopeState::Naming { base, prefix } => ScopeView::Naming(base@, prefix@),
            ScopeState::Finished(Ok(scope)) => ScopeView::Finished(Ok(scope@)),
            ScopeState::Finished(Err(e)) => ScopeView::Finished(Err(e)),
        }
    }
}

impl<E> ScopeTask<E> {
    /// What the task asks for next; nothing once it has ended.
    pub fn request(&self) -> (r: Option<Request>)
        ensures
            asked(r) == scope_request(self@),
    {
        match &self.state {
            ScopeState::Creating { base, .. } => Some(Request::CreateDirAll(base.clone())),
            ScopeState::Naming { base, prefix } => Some(
                Request::CreateTempDir { parent: base.clone(), prefix: prefix.clone() },
            ),
            ScopeState::Finished(_) => None,
        }
    }

    /// Goes on with the answer to the request.
    pub fn step(self, answer: Answer<E>) -> (r: ScopeTask<E>)
        ensures
            r@ == scope_next(self@, answer@),
    {
        let state = match self.state {
            ScopeState::Creating { base, prefix } => match answer {
                Answer::Done => ScopeState::Naming { base, prefix },
                Answer::Failed(e) => ScopeState::Finished(Err(e)),
                _ => ScopeState::Creating { base, prefix },
            },
            ScopeState::Naming { base, prefix } => match answer {
                Answer::Path(dir) => ScopeState::Finished(
                    Ok(ProcessScopedCacheGroup { process_group: CacheGroup::at(dir) }),
                ),
                Answer::Failed(e) => ScopeState::Finished(Err(e)),
                _ => ScopeState::Naming { base, prefix },
            },
            ScopeState::Finished(outcome) => ScopeState::Finished(outcome),
        };
        ScopeTask { state }
    }

    /// The group of the process, or what went wrong, once the task has ended.
    pub fn progress(self) -> (r: Progress<ScopeTask<E>, Result<ProcessScopedCacheGroup, E>>)
        ensures
            match r {
                Progress::Waiting(task) => task@ == self@ && self@ !is Finished,
                Progress::Finished(Ok(scope)) => self@ == ScopeView::<E>::Finished(Ok(scope@)),
                Progress::Finished(Err(e)) => self@ == ScopeView::<E>::Finished(Err(e)),
            },
    {
        match self.state {
            ScopeState::Finished(outcome) => Progress::Finished(outcome),
            state => Progress::Waiting(ScopeTask { state }),
        }
    }
}

/// The path of the group of the thread with the given id.
pub open spec fn thread_group_path(process: Seq<u8>, thread_id: int) -> Seq<u8> {
    join(process, thread_dir_name_bytes(thread_id))
}

impl ProcessScopedCacheGroup {
    /// Starts making the group of the process `pid` under the group at
    /// `relative_group` of `root`.
    pub fn new<E>(root: &CacheRoot, relative_group: &PosixPath, pid: u32) -> (r: ScopeTask<E>)
        ensures
            r@ == ScopeView::<E>::Creating(
                join(root@, relative_group@),
                process_dir_prefix_bytes(pid as int),
            ),
    {
        Self::from_group(root.group(relative_group), pid)
    }

    /// Starts making the group of the process `pid` under `base_group`.
    pub fn from_group<E>(base_group: CacheGroup, pid: u32) -> (r: ScopeTask<E>)
        ensures
            r@ == ScopeView::<E>::Creating(base_group@, process_dir_prefix_bytes(pid as int)),
    {
        ScopeTask {
            state: ScopeState::Creating {
                base: base_group.path().clone(),
                prefix: process_dir_prefix(pid),
            },
        }
    }

    /// The path of the process's directory.
    pub fn path(&self) -> (r: &PosixPath)
        ensures
            r@ == self@,
    {
        self.process_group.path()
    }

    /// The group of the process.
    pub fn process_group(&self) -> (r: CacheGroup)
        ensures
            r@ == self@,
    {
        self.process_group.clone()
    }

    /// The group of the thread with the given id.
    pub fn thread_group(&self, thread_id: u64) -> (r: CacheGroup)
        ensures
            r@ == thread_group_path(self@, thread_id as int),
    {
        self.process_group.subgroup(&PosixPath::from_bytes(thread_dir_name(thread_id)))
    }

    /// Starts creating the directory of the thread's group.
    pub fn ensure_thread_group<E>(&self, thread_id: u64) -> (r: EnsureTask<E>)
        ensures
            r@ == EnsureView::<E>::Creating(thread_group_path(self@, thread_id as int), None),
    {
        self.thread_group(thread_id).ensure_dir()
    }

    /// The path of the entry at `relative_file` in the thread's group.
    pub fn thread_entry_path(&self, thread_id: u64, relative_file: &PosixPath) -> (r: PosixPath)
        ensures
            r@ == join(thread_group_path(self@, thread_id as int), relative_file@),
    {
        self.thread_group(thread_id).entry_path(relative_file)
    }

    /// Starts creating the directory of the thread's group and then creating or
    /// updating the entry at `relative_file` in it. The task ends with the path
    /// that `thread_entry_path` gives.
    pub fn touch_thread_entry<E>(&self, thread_id: u64, relative_file: &PosixPath) -> (r:
        TouchTask<E>)
        ensures
            ({
                let group = thread_group_path(self@, thread_id as int);
                let entry = join(group, relative_file@);
                r@ == TouchView::<E>::Preparing(group, entry)
            }),
    {
        let group = self.thread_group(thread_id);
        TouchTask::with_dir(group.path().clone(), group.entry_path(relative_file))
    }
}

}
