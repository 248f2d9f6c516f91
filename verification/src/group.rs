//! A directory under a cache root that holds cache entries.
use crate::ensure::{EnsureTask, EnsureView};
use crate::evict::EvictPolicy;
use crate::path::{components, join, PosixPath};
use crate::report::{report_start, ReportTask};
use crate::touch::{touch_start, TouchTask};
use vstd::prelude::*;
use vstd::std_specs::cmp::PartialEqSpecImpl;

verus! {

/// A directory in which a class of cache entries lives. It is a path only:
/// making one creates nothing.
#[derive(Debug)]
pub struct CacheGroup {
    path: PosixPath,
}

impl View for CacheGroup {
    type V = Seq<u8>;

    /// The path of the group.
    closed spec fn view(&self) -> Seq<u8> {
        self.path@
    }
}

impl Clone for CacheGroup {
    fn clone(&self) -> (r: Self)
        ensures
            r@ == self@,
    {
        CacheGroup { path: self.path.clone() }
    }
}

impl PartialEq for CacheGroup {
    fn eq(&self, other: &Self) -> (r: bool) {
        self.path == other.path
    }
}

impl PartialEqSpecImpl for CacheGroup {
    open spec fn obeys_eq_spec() -> bool {
        true
    }

    open spec fn eq_spec(&self, other: &Self) -> bool {
        components(self@) == components(other@)
    }
}

impl Eq for CacheGroup {

}

/// The policy behind a reference, where there is one.
pub open spec fn policy_value(policy: Option<&EvictPolicy>) -> Option<EvictPolicy> {
    match policy {
        Some(p) => Some(*p),
        None => None,
    }
}

impl CacheGroup {
    /// The group at `path`.
    pub fn at(path: PosixPath) -> (r: CacheGroup)
        ensures
            r@ == path@,
    {
        CacheGroup { path }
    }

    /// The path of the group.
    pub fn path(&self) -> (r: &PosixPath)
        ensures
            r@ == self@,
    {
        &self.path
    }

    /// Starts creating the directory of the group, with those above it that are
    /// missing.
    pub fn ensure_dir<E>(&self) -> (r: EnsureTask<E>)
        ensures
            r@ == EnsureView::<E>::Creating(self@, None),
    {
        self.ensure_dir_with_policy(None)
    }

    /// Starts creating the directory of the group and, where there is a policy,
    /// evicting the files under it that the policy selects.
    pub fn ensure_dir_with_policy<E>(&self, policy: Option<&EvictPolicy>) -> (r: EnsureTask<E>)
        ensures
            r@ == EnsureView::<E>::Creating(self@, policy_value(policy)),
            policy matches Some(p) ==> r@ == EnsureView::<E>::Creating(self@, Some(*p)),
            policy is None ==> r@ == EnsureView::<E>::Creating(self@, None),
    {
        let policy = match policy {
            Some(p) => Some(*p),
            None => None,
        };
        EnsureTask::new(self.path.clone(), policy)
    }

    /// Starts selecting the files under the group that `policy` evicts. The task
    /// ends with their absolute paths. Nothing is removed, and the selection is
    /// that of `ensure_dir_with_policy`.
    pub fn eviction_report<E>(&self, policy: &EvictPolicy) -> (r: ReportTask<E>)
        ensures
            r@ == report_start::<E>(self@, *policy),
    {
        ReportTask::new(&self.path, *policy)
    }

    /// The group at `relative_group` under this one.
    pub fn subgroup(&self, relative_group: &PosixPath) -> (r: CacheGroup)
        ensures
            r@ == join(self@, relative_group@),
    {
        CacheGroup { path: self.path.join(relative_group) }
    }

    /// The path of the entry at `relative_file` under this group.
    pub fn entry_path(&self, relative_file: &PosixPath) -> (r: PosixPath)
        ensures
            r@ == join(self@, relative_file@),
    {
        self.path.join(relative_file)
    }

    /// Starts creating the entry at `relative_file`, with the directories above
    /// it that are missing, or updating it. An entry that exists keeps its
    /// contents and is from then on modified at the time of the call. The task
    /// ends with the absolute path of the entry.
    pub fn touch<E>(&self, relative_file: &PosixPath) -> (r: TouchTask<E>)
        ensures
            r@ == touch_start::<E>(join(self@, relative_file@)),
    {
        TouchTask::new(self.entry_path(relative_file))
    }
}

}
