//! The directory that all groups of a cache lie under.
use crate::discovery::{Discovery, DiscoveryView};
use crate::ensure::{EnsureTask, EnsureView};
use crate::evict::EvictPolicy;
use crate::group::{policy_value, CacheGroup};
use crate::path::{components, is_absolute, join, PosixPath};
use vstd::prelude::*;
use vstd::std_specs::cmp::PartialEqSpecImpl;

verus! {

/// The anchor of a cache. It is a path only: making one creates nothing.
#[derive(Debug)]
pub struct CacheRoot {
    root: PosixPath,
}

impl View for CacheRoot {
    type V = Seq<u8>;

    /// The path of the root.
    closed spec fn view(&self) -> Seq<u8> {
        self.root@
    }
}

impl Clone for CacheRoot {
    fn clone(&self) -> (r: Self)
        ensures
            r@ == self@,
    {
        CacheRoot { root: self.root.clone() }
    }
}

impl PartialEq for CacheRoot {
    fn eq(&self, other: &Self) -> (r: bool) {
        self.root == other.root
    }
}

impl PartialEqSpecImpl for CacheRoot {
    open spec fn obeys_eq_spec() -> bool {
        true
    }

    open spec fn eq_spec(&self, other: &Self) -> bool {
        components(self@) == components(other@)
    }
}

impl Eq for CacheRoot {

}

/// Where the entry at `relative_path` of the group at `cache_dir` under `root`
/// lies: an absolute entry path stands as it is.
pub open spec fn entry_location(
    root: Seq<u8>,
    cache_dir: Seq<u8>,
    relative_path: Seq<u8>,
) -> Seq<u8> {
    if is_absolute(relative_path) {
        relative_path
    } else {
        join(join(root, cache_dir), relative_path)
    }
}

impl CacheRoot {
    /// Starts looking for the cache root of the current crate: `.cache` in the
    /// nearest directory, from the current one upwards, that holds a
    /// `Cargo.toml`, or in the current directory where there is none.
    pub fn from_discovery<E>() -> (r: Discovery<E>)
        ensures
            r@ == DiscoveryView::<E>::Locating,
    {
        Discovery::new()
    }

    /// The cache root at `root`.
    pub fn from_root(root: PosixPath) -> (r: CacheRoot)
        ensures
            r@ == root@,
    {
        CacheRoot { root }
    }

    /// The path of the root.
    pub fn path(&self) -> (r: &PosixPath)
        ensures
            r@ == self@,
    {
        &self.root
    }

    /// The group at `relative_group` under this root.
    pub fn group(&self, relative_group: &PosixPath) -> (r: CacheGroup)
        ensures
            r@ == join(self@, relative_group@),
    {
        CacheGroup::at(self.root.join(relative_group))
    }

    /// The absolute path of the group at `relative_group` under this root, where
    /// `cwd` is the current directory, which a relative root lies under.
    pub fn group_path(&self, cwd: &PosixPath, relative_group: &PosixPath) -> (r: PosixPath)
        ensures
            r@ == join(join(cwd@, self@), relative_group@),
            is_absolute(cwd@) ==> is_absolute(r@),
    {
        cwd.join(&self.root).join(relative_group)
    }

    /// Starts creating the directory of the group at `relative_group`.
    pub fn ensure_group<E>(&self, relative_group: &PosixPath) -> (r: EnsureTask<E>)
        ensures
            r@ == EnsureView::<E>::Creating(join(self@, relative_group@), None),
    {
        self.ensure_group_with_policy(relative_group, None)
    }

    /// Starts creating the directory of the group at `relative_group` and, where
    /// there is a policy, evicting the files under it that the policy selects.
    pub fn ensure_group_with_policy<E>(
        &self,
        relative_group: &PosixPath,
        policy: Option<&EvictPolicy>,
    ) -> (r: EnsureTask<E>)
        ensures
            r@ == EnsureView::<E>::Creating(join(self@, relative_group@), policy_value(policy)),
            policy matches Some(p) ==> r@ == EnsureView::<E>::Creating(
                join(self@, relative_group@),
                Some(*p),
            ),
            policy is None ==> r@ == EnsureView::<E>::Creating(join(self@, relative_group@), None),
    {
        self.group(relative_group).ensure_dir_with_policy(policy)
    }

    /// The path of the entry at `relative_path` of the group at `cache_dir`. An
    /// absolute `relative_path` is returned unchanged.
    pub fn cache_path(&self, cache_dir: &PosixPath, relative_path: &PosixPath) -> (r: PosixPath)
        ensures
            r@ == entry_location(self@, cache_dir@, relative_path@),
            is_absolute(relative_path@) ==> r@ == relative_path@,
            !is_absolute(relative_path@) ==> r@ == join(
                join(self@, cache_dir@),
                relative_path@,
            ),
    {
        if relative_path.is_absolute() {
            return relative_path.clone();
        }
        self.group(cache_dir).entry_path(relative_path)
    }
}

}
