//! Finding the cache root of the current crate.
use crate::constants::{
    cache_dir_name, cargo_toml_file_name, CACHE_DIR_NAME, CARGO_TOML_FILE_NAME,
};
use crate::disk::{asked, Answer, AnswerView, Progress, Request, RequestView};
use crate::path::{join, parent, PosixPath};
use crate::path_laws::parent_drops_last_component;
use crate::root::CacheRoot;
use vstd::prelude::*;

verus! {

/// A search for the nearest directory that holds a `Cargo.toml`, from a
/// directory upwards.
#[derive(Debug)]
pub struct CrateRootSearch {
    state: SearchState,
}

#[derive(Debug)]
enum SearchState {
    Probing(PosixPath),
    Finished(Option<PosixPath>),
}

/// Where a search stands.
pub enum SearchView {
    /// The directory is to be looked at.
    Probing(Seq<u8>),
    /// The search has ended with this directory, or with none.
    Finished(Option<Seq<u8>>),
}

/// The path of the `Cargo.toml` of `dir`.
pub open spec fn manifest_path(dir: Seq<u8>) -> Seq<u8> {
    join(dir, cargo_toml_file_name())
}

/// The nearest directory, from `start` upwards, whose `Cargo.toml` is a file.
pub open spec fn crate_root(start: Seq<u8>, is_file: spec_fn(Seq<u8>) -> bool) -> Option<Seq<u8>>
    decreases start.len(),
    via crate_root_decreases
{
    if is_file(manifest_path(start)) {
        Some(start)
    } else {
        match parent(start) {
            Some(above) => crate_root(above, is_file),
            None => None,
        }
    }
}

#[via_fn]
proof fn crate_root_decreases(start: Seq<u8>, is_file: spec_fn(Seq<u8>) -> bool) {
    parent_drops_last_component(start);
}

/// What a search asks for next.
pub open spec fn search_request(s: SearchView) -> Option<RequestView> {
    match s {
        SearchView::Probing(dir) => Some(RequestView::IsFile(manifest_path(dir))),
        SearchView::Finished(_) => None,
    }
}

/// Where a search stands after an answer.
pub open spec fn search_next<E>(s: SearchView, answer: AnswerView<E>) -> SearchView {
    match s {
        SearchView::Probing(dir) => match answer {
            AnswerView::Flag(true) => SearchView::Finished(Some(dir)),
            AnswerView::Flag(false) => match parent(dir) {
                Some(above) => SearchView::Probing(above),
                None => SearchView::Finished(None),
            },
            _ => s,
        },
        SearchView::Finished(_) => s,
    }
}

impl View for CrateRootSearch {
    type V = SearchView;

    closed spec fn view(&self) -> SearchView {
        match self.state {
            SearchState::Probing(dir) => SearchView::Probing(dir@),
            SearchState::Finished(Some(dir)) => SearchView::Finished(Some(dir@)),
            SearchState::Finished(None) => SearchView::Finished(None),
        }
    }
}

/// Starts looking for the nearest crate root, from `start` upwards.
pub fn find_crate_root(start: &PosixPath) -> (r: CrateRootSearch)
    ensures
        r@ == SearchView::Probing(start@),
{
    CrateRootSearch { state: SearchState::Probing(start.clone()) }
}

impl CrateRootSearch {
    /// What the search asks for next; nothing once it has ended.
    pub fn request(&self) -> (r: Option<Request>)
        ensures
            asked(r) == search_request(self@),
    {
        match &self.state {
            SearchState::Probing(dir) => Some(
                Request::IsFile(dir.join(&PosixPath::from_text(CARGO_TOML_FILE_NAME))),
            ),
            SearchState::Finished(_) => None,
        }
    }

    /// Goes on with the answer to the request.
    pub fn step<E>(self, answer: Answer<E>) -> (r: CrateRootSearch)
        ensures
            r@ == search_next(self@, answer@),
    {
        let state = match self.state {
            SearchState::Probing(dir) => match answer {
                Answer::Flag(found) => if found {
                    SearchState::Finished(Some(dir))
                } else {
                    match dir.parent() {
                        Some(above) => SearchState::Probing(above),
                        None => SearchState::Finished(None),
                    }
                },
                _ => SearchState::Probing(dir),
            },
            SearchState::Finished(outcome) => SearchState::Finished(outcome),
        };
        CrateRootSearch { state }
    }

    /// The crate root, where there is one, once the search has ended.
    pub fn progress(self) -> (r: Progress<CrateRootSearch, Option<PosixPath>>)
        ensures
            match r {
                Progress::Waiting(search) => search@ == self@ && self@ !is Finished,
                Progress::Finished(Some(dir)) => self@ == SearchView::Finished(Some(dir@)),
                Progress::Finished(None) => self@ == SearchView::Finished(None),
            },
    {
        match self.state {
            SearchState::Finished(outcome) => Progress::Finished(outcome),
            state => Progress::Waiting(CrateRootSearch { state }),
        }
    }
}

/// The discovery of the cache root: the current directory is read, the crate
/// root is looked for from there upwards, and the cache directory is placed in
/// it, or in the current directory where there is no crate root. The directory
/// is made canonical where that is possible.
#[derive(Debug)]
pub struct Discovery<E> {
    state: DiscoveryState<E>,
}

#[derive(Debug)]
enum DiscoveryState<E> {
    Locating,
    Searching { cwd: PosixPath, search: CrateRootSearch },
    Resolving(PosixPath),
    Finished(Result<CacheRoot, E>),
}

/// Where a discovery stands.
pub enum DiscoveryView<E> {
    /// The current directory is to be read.
    Locating,
    /// The crate root is being looked for; the first value is the current
    /// directory.
    Searching(Seq<u8>, SearchView),
    /// The directory that was settled on is to be made canonical.
    Resolving(Seq<u8>),
    /// The discovery has ended, with the path of the cache root.
    Finished(Result<Seq<u8>, E>),
}

/// The path of the cache root in `dir`.
pub open spec fn cache_root_in(dir: Seq<u8>) -> Seq<u8> {
    join(dir, cache_dir_name())
}

/// What a discovery asks for next.
pub open spec fn discovery_request<E>(s: DiscoveryView<E>) -> Option<RequestView> {
    match s {
        DiscoveryView::Locating => Some(RequestView::CurrentDir),
        DiscoveryView::Searching(_, search) => search_request(search),
        DiscoveryView::Resolving(dir) => Some(RequestView::Canonicalize(dir)),
        DiscoveryView::Finished(_) => None,
    }
}

/// Where a discovery stands when the search from `cwd` stands at `search`.
pub open spec fn after_search<E>(cwd: Seq<u8>, search: SearchView) -> DiscoveryView<E> {
    match search {
        SearchView::Finished(Some(dir)) => DiscoveryView::Resolving(dir),
        SearchView::Finished(None) => DiscoveryView::Resolving(cwd),
        SearchView::Probing(_) => DiscoveryView::Searching(cwd, search),
    }
}

/// Where a discovery stands after an answer.
pub open spec fn discovery_next<E>(s: DiscoveryView<E>, answer: AnswerView<E>) -> DiscoveryView<E> {
    match s {
        DiscoveryView::Locating => match answer {
            AnswerView::Path(cwd) => DiscoveryView::Searching(cwd, SearchView::Probing(cwd)),
            AnswerView::Failed(e) => DiscoveryView::Finished(Err(e)),
            _ => s,
        },
        DiscoveryView::Searching(cwd, search) => after_search(cwd, search_next(search, answer)),
        DiscoveryView::Resolving(dir) => match answer {
            AnswerView::Path(canonical) => DiscoveryView::Finished(
                Ok(cache_root_in(canonical)),
            ),
            AnswerView::Failed(_) => DiscoveryView::Finished(Ok(cache_root_in(dir))),
            _ => s,
        },
        DiscoveryView::Finished(_) => s,
    }
}

impl<E> View for Discovery<E> {
    type V = DiscoveryView<E>;

    closed spec fn view(&self) -> DiscoveryView<E> {
        match self.state {
            DiscoveryState::Locating => DiscoveryView::Locating,
            DiscoveryState::Searching { cwd, search } => DiscoveryView::Searching(cwd@, search@),
            DiscoveryState::Resolving(dir) => DiscoveryView::Resolving(dir@),
            DiscoveryState::Finished(Ok(root)) => DiscoveryView::Finished(Ok(root@)),
            DiscoveryState::Finished(Err(e)) => DiscoveryView::Finished(Err(e)),
        }
    }
}

impl<E> Discovery<E> {
    /// Starts the discovery.
    pub fn new() -> (r: Discovery<E>)
        ensures
            r@ == DiscoveryView::<E>::Locating,
    {
        Discovery { state: DiscoveryState::Locating }
    }

    /// What the discovery asks for next; nothing once it has ended.
    pub fn request(&self) -> (r: Option<Request>)
        ensures
            asked(r) == discovery_request(self@),
    {
        match &self.state {
            DiscoveryState::Locating => Some(Request::CurrentDir),
            DiscoveryState::Searching { search, .. } => search.request(),
            DiscoveryState::Resolving(dir) => Some(Request::Canonicalize(dir.clone())),
            DiscoveryState::Finished(_) => None,
        }
    }

    /// Goes on with the answer to the request.
    pub fn step(self, answer: Answer<E>) -> (r: Discovery<E>)
        ensures
            r@ == discovery_next(self@, answer@),
    {
        let state = match self.state {
            DiscoveryState::Locating => match answer {
                Answer::Path(cwd) => {
                    let search = find_crate_root(&cwd);
                    DiscoveryState::Searching { cwd, search }
                },
                Answer::Failed(e) => DiscoveryState::Finished(Err(e)),
                _ => DiscoveryState::Locating,
            },
            DiscoveryState::Searching { cwd, search } => match search.step(answer).progress() {
                Progress::Waiting(search) => DiscoveryState::Searching { cwd, search },
                Progress::Finished(Some(dir)) => DiscoveryState::Resolving(dir),
                Progress::Finished(None) => DiscoveryState::Resolving(cwd),
            },
            DiscoveryState::Resolving(dir) => match answer {
                Answer::Path(canonical) => DiscoveryState::Finished(Ok(root_in(&canonical))),
                Answer::Failed(_) => DiscoveryState::Finished(Ok(root_in(&dir))),
                _ => DiscoveryState::Resolving(dir),
            },
            DiscoveryState::Finished(outcome) => DiscoveryState::Finished(outcome),
        };
        Discovery { state }
    }

    /// The cache root, or what went wrong, once the discovery has ended.
    pub fn progress(self) -> (r: Progress<Discovery<E>, Result<CacheRoot, E>>)
        ensures
            match r {
                Progress::Waiting(task) => task@ == self@ && self@ !is Finished,
                Progress::Finished(Ok(root)) => self@ == DiscoveryView::<E>::Finished(Ok(root@)),
                Progress::Finished(Err(e)) => self@ == DiscoveryView::<E>::Finished(Err(e)),
            },
    {
        match self.state {
            DiscoveryState::Finished(outcome) => Progress::Finished(outcome),
            state => Progress::Waiting(Discovery { state }),
        }
    }
}

/// The cache root in `dir`.
fn root_in(dir: &PosixPath) -> (r: CacheRoot)
    ensures
        r@ == cache_root_in(dir@),
{
    CacheRoot::from_root(dir.join(&PosixPath::from_text(CACHE_DIR_NAME)))
}

}
