//! The cache root that the operating system keeps for a project.
use crate::path::PosixPath;
use crate::root::CacheRoot;
use vstd::prelude::*;

verus! {

/// Why there is no cache root for a project.
#[derive(Clone, Copy, Debug, PartialEq, Eq, Structural)]
pub enum ProjectDirsError {
    /// The operating system names no cache directory for the user.
    NotFound,
}

/// What an error says.
pub open spec fn error_text(e: ProjectDirsError) -> Seq<char> {
    match e {
        ProjectDirsError::NotFound =>
            "could not resolve an OS cache directory for the provided project identity"@,
    }
}

impl ProjectDirsError {
    /// The error in words.
    pub fn message(&self) -> (r: &'static str)
        ensures
            r@ == error_text(*self),
            r@ == "could not resolve an OS cache directory for the provided project identity"@,
    {
        match self {
            ProjectDirsError::NotFound =>
                "could not resolve an OS cache directory for the provided project identity",
        }
    }
}

/// Whether `ProjectDirs::from`, called with the identity of a project, can come
/// back with `dir` for its cache directory, in some environment.
pub uninterp spec fn may_be_project_cache_dir(
    qualifier: Seq<char>,
    organization: Seq<char>,
    application: Seq<char>,
    dir: Option<Seq<u8>>,
) -> bool;

/// The bytes of a path that may be missing.
pub open spec fn optional_bytes(dir: Option<Vec<u8>>) -> Option<Seq<u8>> {
    match dir {
        Some(bytes) => Some(bytes@),
        None => None,
    }
}

/// Calls `directories::ProjectDirs::from` with the three parts of the identity,
/// in that order, and hands out the bytes of its `cache_dir`.
///
/// The contract claims only that what came back is something that this call can
/// come back with. Which directory it is, and whether there is one, rests on the
/// environment variables of the process, on the user database and on the
/// platform, and is left unsaid.
#[verifier::external_body]
fn project_cache_dir(qualifier: &str, organization: &str, application: &str) -> (r: Option<Vec<u8>>)
    ensures
        may_be_project_cache_dir(qualifier@, organization@, application@, optional_bytes(r)),
{
    directories::ProjectDirs::from(qualifier, organization, application)
        .map(|dirs| dirs.cache_dir().as_os_str().as_encoded_bytes().to_vec())
}

/// What a cache root is made of when the operating system names `dir` for the
/// project: the directory, or the error where there is none.
pub open spec fn is_project_root(r: Result<CacheRoot, ProjectDirsError>, dir: Option<Seq<u8>>) -> bool {
    match dir {
        Some(bytes) => r matches Ok(root) && root@ == bytes,
        None => r == Err::<CacheRoot, _>(ProjectDirsError::NotFound),
    }
}

impl CacheRoot {
    /// The cache root in the directory that the operating system keeps for the
    /// caches of the user, for the project with the given identity.
    pub fn from_project_dirs(qualifier: &str, organization: &str, application: &str) -> (r: Result<
        CacheRoot,
        ProjectDirsError,
    >)
        ensures
            exists|dir: Option<Seq<u8>>| #[trigger]
                may_be_project_cache_dir(qualifier@, organization@, application@, dir)
                    && is_project_root(r, dir) && match dir {
                    Some(bytes) => r matches Ok(root) && root@ == bytes,
                    None => r matches Err(e) && e == ProjectDirsError::NotFound,
                },
    {
        CacheRoot::from_project_cache_dir(project_cache_dir(qualifier, organization, application))
    }

    /// The cache root in the cache directory of a project, where there is one.
    pub fn from_project_cache_dir(dir: Option<Vec<u8>>) -> (r: Result<CacheRoot, ProjectDirsError>)
        ensures
            is_project_root(r, optional_bytes(dir)),
            dir matches Some(bytes) ==> (r matches Ok(root) && root@ == bytes@),
            dir is None ==> (r matches Err(e) && e == ProjectDirsError::NotFound),
    {
        match dir {
            Some(bytes) => Ok(CacheRoot::from_root(PosixPath::from_bytes(bytes))),
            None => Err(ProjectDirsError::NotFound),
        }
    }
}

/// The cache root of a project is the directory that was named for it, byte by
/// byte, and there is one exactly where a directory was named.
pub proof fn project_root_is_the_named_directory(
    r: Result<CacheRoot, ProjectDirsError>,
    bytes: Vec<u8>,
)
    ensures
        optional_bytes(Some(bytes)) == Some(bytes@),
        optional_bytes(None) is None,
        is_project_root(r, Some(bytes@)) <==> (r matches Ok(root) && root@ == bytes@),
        is_project_root(r, None) <==> (r matches Err(e) && e == ProjectDirsError::NotFound),
{
}

}
