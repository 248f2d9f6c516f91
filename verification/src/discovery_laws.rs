//! What holds of every discovery of a cache root.
use crate::discovery::{
    after_search, cache_root_in, crate_root, discovery_next, discovery_request, manifest_path,
    search_next, search_request, DiscoveryView, SearchView,
};
use crate::disk::{AnswerView, RequestView};
use crate::machine::Machine;
use crate::path::{components, join, parent, Component};
use crate::path_laws::{joined_name_is_one_more_component, parent_drops_last_component};
use vstd::prelude::*;
use vstd::utf8::encode_utf8;

verus! {

/// The state machine of a search for a crate root.
pub open spec fn search_machine<E>() -> Machine<SearchView, E> {
    Machine {
        next: |s: SearchView, answer: AnswerView<E>| search_next(s, answer),
        request: |s: SearchView| search_request(s),
    }
}

/// The state machine of a discovery.
pub open spec fn discovery_machine<E>() -> Machine<DiscoveryView<E>, E> {
    Machine {
        next: |s: DiscoveryView<E>, answer: AnswerView<E>| discovery_next(s, answer),
        request: |s: DiscoveryView<E>| discovery_request(s),
    }
}

/// The directory `levels` levels above `start`, where there is one.
pub open spec fn ancestor(start: Seq<u8>, levels: nat) -> Option<Seq<u8>>
    decreases levels,
{
    if levels == 0 {
        Some(start)
    } else {
        match parent(start) {
            Some(above) => ancestor(above, (levels - 1) as nat),
            None => None,
        }
    }
}

/// Whether the directory `levels` levels above `start` exists as a path and
/// holds no `Cargo.toml`.
pub open spec fn lacks_manifest(
    start: Seq<u8>,
    is_file: spec_fn(Seq<u8>) -> bool,
    levels: nat,
) -> bool {
    ancestor(start, levels) matches Some(dir) && !is_file(manifest_path(dir))
}

/// The answers of the operating system while a crate root is looked for from
/// `start` upwards.
pub open spec fn search_answers<E>(start: Seq<u8>, is_file: spec_fn(Seq<u8>) -> bool) -> Seq<
    AnswerView<E>,
>
    decreases start.len(),
{
    proof {
        parent_drops_last_component(start);
    }
    let found = is_file(manifest_path(start));
    let first = seq![AnswerView::Flag(found)];
    if found {
        first
    } else {
        match parent(start) {
            Some(above) => first + search_answers(above, is_file),
            None => first,
        }
    }
}

/// The crate root is the nearest directory, from the start upwards, that holds a
/// `Cargo.toml`: it holds one, it lies some number of levels above the start,
/// and no directory on the way holds one. Where there is no crate root, none of
/// the directories above the start holds one.
pub proof fn crate_root_is_nearest(start: Seq<u8>, is_file: spec_fn(Seq<u8>) -> bool)
    ensures
        match crate_root(start, is_file) {
            Some(dir) => {
                &&& is_file(manifest_path(dir))
                &&& exists|n: nat|
                    #![trigger ancestor(start, n)]
                    ancestor(start, n) == Some(dir) && forall|k: nat|
                        k < n ==> #[trigger] lacks_manifest(start, is_file, k)
            },
            None => forall|k: nat| #[trigger]
                ancestor(start, k) is Some ==> lacks_manifest(start, is_file, k),
        },
    decreases start.len(),
{
    parent_drops_last_component(start);
    if is_file(manifest_path(start)) {
        assert(ancestor(start, 0) == Some(start));
    } else {
        match parent(start) {
            Some(above) => {
                crate_root_is_nearest(above, is_file);
                match crate_root(above, is_file) {
                    Some(dir) => {
                        let n = choose|n: nat|
                            #![trigger ancestor(above, n)]
                            ancestor(above, n) == Some(dir) && forall|k: nat|
                                k < n ==> #[trigger] lacks_manifest(above, is_file, k);
                        assert(ancestor(start, n + 1) == Some(dir));
                        assert forall|k: nat| k < n + 1 implies #[trigger] lacks_manifest(
                            start,
                            is_file,
                            k,
                        ) by {
                            if k > 0 {
                                assert(lacks_manifest(above, is_file, (k - 1) as nat));
                            }
                        }
                    },
                    None => {
                        assert forall|k: nat| #[trigger]
                            ancestor(start, k) is Some implies lacks_manifest(
                            start,
                            is_file,
                            k,
                        ) by {
                            if k > 0 {
                                assert(ancestor(above, (k - 1) as nat) is Some);
                            }
                        }
                    },
                }
            },
            None => {
                assert forall|k: nat| #[trigger] ancestor(start, k) is Some implies lacks_manifest(
                    start,
                    is_file,
                    k,
                ) by {
                    assert(k == 0);
                }
            },
        }
    }
}

/// A search that is told the truth about which paths are files ends with the
/// crate root.
pub proof fn search_finds_crate_root<E>(start: Seq<u8>, is_file: spec_fn(Seq<u8>) -> bool)
    ensures
        search_machine::<E>().run(
            SearchView::Probing(start),
            search_answers::<E>(start, is_file),
        ) == SearchView::Finished(crate_root(start, is_file)),
        search_machine::<E>().takes_all(
            SearchView::Probing(start),
            search_answers::<E>(start, is_file),
        ),
    decreases start.len(),
{
    let m = search_machine::<E>();
    let s = SearchView::Probing(start);
    let flag = AnswerView::<E>::Flag(is_file(manifest_path(start)));
    parent_drops_last_component(start);
    m.lemma_run_one(s, flag);
    if !is_file(manifest_path(start)) {
        if let Some(above) = parent(start) {
            search_finds_crate_root::<E>(above, is_file);
            m.lemma_run_add(s, seq![flag], search_answers::<E>(above, is_file));
        }
    }
}

/// A discovery follows its search.
proof fn lemma_discovery_follows_search<E>(
    cwd: Seq<u8>,
    s: SearchView,
    answers: Seq<AnswerView<E>>,
)
    requires
        search_machine::<E>().takes_all(s, answers),
    ensures
        discovery_machine::<E>().run(after_search::<E>(cwd, s), answers) == after_search::<E>(
            cwd,
            search_machine::<E>().run(s, answers),
        ),
        discovery_machine::<E>().takes_all(after_search::<E>(cwd, s), answers),
    decreases answers.len(),
{
    if answers.len() > 0 {
        assert(search_request(s) is Some);
        lemma_discovery_follows_search::<E>(cwd, search_next(s, answers[0]), answers.drop_first());
    }
}

/// The directory that a discovery from `cwd` settles on: the crate root, or
/// `cwd` where there is none.
pub open spec fn anchor_of(cwd: Seq<u8>, is_file: spec_fn(Seq<u8>) -> bool) -> Seq<u8> {
    match crate_root(cwd, is_file) {
        Some(dir) => dir,
        None => cwd,
    }
}

/// A discovery ends with the cache directory in the canonical form of the crate
/// root, or of the current directory where there is no crate root; where there
/// is no canonical form, in the directory as it is.
pub proof fn discovery_anchors_cache_at_crate_root<E>(
    cwd: Seq<u8>,
    is_file: spec_fn(Seq<u8>) -> bool,
    canonical: AnswerView<E>,
)
    requires
        canonical is Path || canonical is Failed,
    ensures
        ({
            let answers = seq![AnswerView::Path(cwd)] + search_answers::<E>(cwd, is_file) + seq![
                canonical,
            ];
            let dir = match canonical {
                AnswerView::Path(path) => path,
                _ => anchor_of(cwd, is_file),
            };
            &&& discovery_machine::<E>().run(DiscoveryView::Locating, answers) == DiscoveryView::<
                E,
            >::Finished(Ok(cache_root_in(dir)))
            &&& discovery_machine::<E>().takes_all(DiscoveryView::Locating, answers)
        }),
{
    let m = discovery_machine::<E>();
    let s = DiscoveryView::<E>::Locating;
    let first = seq![AnswerView::<E>::Path(cwd)];
    let middle = search_answers::<E>(cwd, is_file);
    let probing = SearchView::Probing(cwd);
    m.lemma_run_one(s, AnswerView::Path(cwd));
    m.lemma_run_add(s, first, middle);
    m.lemma_run_add(s, first + middle, seq![canonical]);
    search_finds_crate_root::<E>(cwd, is_file);
    assert(after_search::<E>(cwd, probing) == DiscoveryView::<E>::Searching(cwd, probing));
    lemma_discovery_follows_search::<E>(cwd, probing, middle);
    m.lemma_run_one(DiscoveryView::Resolving(anchor_of(cwd, is_file)), canonical);
}

/// Discovery fails only where the current directory cannot be told.
pub proof fn discovery_fails_only_without_current_dir<E>(s: DiscoveryView<E>, answer: AnswerView<E>)
    requires
        s !is Finished,
        discovery_next(s, answer) matches DiscoveryView::Finished(Err(_)),
    ensures
        s is Locating,
        discovery_next(s, answer) == DiscoveryView::<E>::Finished(Err(answer->Failed_0)),
{
}

proof fn lemma_plain_names()
    ensures
        ({
            let cache = encode_utf8(".cache"@);
            let manifest = encode_utf8("Cargo.toml"@);
            &&& cache.len() == 6 && manifest.len() == 10
            &&& forall|k: int| 0 <= k < cache.len() ==> #[trigger] cache[k] != 47u8
            &&& forall|k: int| 0 <= k < manifest.len() ==> #[trigger] manifest[k] != 47u8
        }),
{
    reveal_strlit(".cache");
    reveal_strlit("Cargo.toml");
    vstd::utf8::is_ascii_chars_encode_utf8(".cache"@);
    vstd::utf8::is_ascii_chars_encode_utf8("Cargo.toml"@);
}

/// The cache root in a directory has the components of the directory and one
/// more, `.cache`, and the `Cargo.toml` of a directory likewise has its name as
/// one more. Both are joined to the directory as it is spelled.
pub proof fn cache_root_and_manifest_lie_right_in_the_directory(dir: Seq<u8>)
    ensures
        cache_root_in(dir) == join(dir, encode_utf8(".cache"@)),
        manifest_path(dir) == join(dir, encode_utf8("Cargo.toml"@)),
        dir.len() > 0 ==> components(cache_root_in(dir)) == components(dir).push(
            Component::Normal(encode_utf8(".cache"@)),
        ),
        dir.len() > 0 ==> components(manifest_path(dir)) == components(dir).push(
            Component::Normal(encode_utf8("Cargo.toml"@)),
        ),
{
    lemma_plain_names();
    assert(seq![46u8].len() == 1 && seq![46u8, 46u8].len() == 2);
    if dir.len() > 0 {
        joined_name_is_one_more_component(dir, encode_utf8(".cache"@));
        joined_name_is_one_more_component(dir, encode_utf8("Cargo.toml"@));
    }
}

/// Going up from a directory by parents, the crate root is the first directory
/// that holds a `Cargo.toml`. Where the way up ends without one, there is none.
pub proof fn crate_root_is_the_first_with_a_manifest(
    way: Seq<Seq<u8>>,
    is_file: spec_fn(Seq<u8>) -> bool,
)
    requires
        way.len() > 0,
        forall|i: int| 0 <= i < way.len() - 1 ==> parent(#[trigger] way[i]) == Some(way[i + 1]),
        forall|i: int|
            0 <= i < way.len() - 1 ==> !is_file(
                join(#[trigger] way[i], encode_utf8("Cargo.toml"@)),
            ),
    ensures
        is_file(join(way[way.len() - 1], encode_utf8("Cargo.toml"@))) ==> crate_root(
            way[0],
            is_file,
        ) == Some(way[way.len() - 1]),
        !is_file(join(way[way.len() - 1], encode_utf8("Cargo.toml"@))) && parent(
            way[way.len() - 1],
        ) is None ==> crate_root(way[0], is_file) is None,
    decreases way.len(),
{
    cache_root_and_manifest_lie_right_in_the_directory(way[0]);
    if way.len() > 1 {
        let rest = way.drop_first();
        assert(parent(way[0]) == Some(way[1]));
        assert forall|i: int| 0 <= i < rest.len() - 1 implies parent(#[trigger] rest[i]) == Some(
            rest[i + 1],
        ) by {
            assert(rest[i] == way[i + 1]);
        }
        assert forall|i: int| 0 <= i < rest.len() - 1 implies !is_file(
            join(#[trigger] rest[i], encode_utf8("Cargo.toml"@)),
        ) by {
            assert(rest[i] == way[i + 1]);
        }
        crate_root_is_the_first_with_a_manifest(rest, is_file);
    }
}

/// A search looks for the `Cargo.toml` of the directory it stands at. Where that
/// is a file, it ends with the directory; else it goes on with the parent, and
/// ends with nothing where there is none. Another answer changes nothing.
pub proof fn search_goes_up_to_the_parent<E>(
    dir: Seq<u8>,
    outcome: Option<Seq<u8>>,
    answer: AnswerView<E>,
)
    ensures
        search_request(SearchView::Probing(dir)) == Some(
            RequestView::IsFile(join(dir, encode_utf8("Cargo.toml"@))),
        ),
        search_next(SearchView::Probing(dir), AnswerView::<E>::Flag(true)) == SearchView::Finished(
            Some(dir),
        ),
        parent(dir) matches Some(above) ==> search_next(
            SearchView::Probing(dir),
            AnswerView::<E>::Flag(false),
        ) == SearchView::Probing(above),
        parent(dir) is None ==> search_next(SearchView::Probing(dir), AnswerView::<E>::Flag(false))
            == SearchView::Finished(None),
        answer !is Flag ==> search_next(SearchView::Probing(dir), answer) == SearchView::Probing(
            dir,
        ),
        search_request(SearchView::Finished(outcome)) is None,
        search_next(SearchView::Finished(outcome), answer) == SearchView::Finished(outcome),
{
}

/// A discovery reads the current directory and searches from there. Where the
/// search ends with a directory, that is made canonical, and else the current
/// directory is. The cache root is `.cache` in the canonical directory, or in the
/// directory as it is where it has no canonical form.
pub proof fn discovery_places_the_cache_where_the_search_ends<E>(
    cwd: Seq<u8>,
    search: SearchView,
    answer: AnswerView<E>,
    dir: Seq<u8>,
    canonical: Seq<u8>,
    e: E,
)
    requires
        search !is Finished,
    ensures
        ({
            let searching = DiscoveryView::<E>::Searching(cwd, search);
            let next = search_next(search, answer);
            let resolving = DiscoveryView::<E>::Resolving(dir);
            &&& discovery_request(DiscoveryView::<E>::Locating) == Some(RequestView::CurrentDir)
            &&& discovery_next(DiscoveryView::<E>::Locating, AnswerView::Path(cwd))
                == DiscoveryView::<E>::Searching(cwd, SearchView::Probing(cwd))
            &&& discovery_next(DiscoveryView::<E>::Locating, AnswerView::Failed(e))
                == DiscoveryView::<E>::Finished(Err(e))
            &&& discovery_request(searching) == search_request(search)
            &&& next !is Finished ==> discovery_next(searching, answer) == DiscoveryView::<
                E,
            >::Searching(cwd, next)
            &&& next == SearchView::Finished(Some(dir)) ==> discovery_next(searching, answer)
                == resolving
            &&& next == SearchView::Finished(None) ==> discovery_next(searching, answer)
                == DiscoveryView::<E>::Resolving(cwd)
            &&& discovery_request(resolving) == Some(RequestView::Canonicalize(dir))
            &&& discovery_next(resolving, AnswerView::Path(canonical)) == DiscoveryView::<
                E,
            >::Finished(Ok(join(canonical, encode_utf8(".cache"@))))
            &&& discovery_next(resolving, AnswerView::Failed(e)) == DiscoveryView::<E>::Finished(
                Ok(join(dir, encode_utf8(".cache"@))),
            )
        }),
{
    cache_root_and_manifest_lie_right_in_the_directory(dir);
    cache_root_and_manifest_lie_right_in_the_directory(canonical);
}

/// An answer that does not fit changes nothing, and a discovery that has ended
/// stays as it is.
pub proof fn discovery_keeps_its_place<E>(
    dir: Seq<u8>,
    root: Seq<u8>,
    e: E,
    answer: AnswerView<E>,
)
    ensures
        answer !is Path && answer !is Failed ==> discovery_next(
            DiscoveryView::<E>::Locating,
            answer,
        ) == DiscoveryView::<E>::Locating,
        answer !is Path && answer !is Failed ==> discovery_next(
            DiscoveryView::<E>::Resolving(dir),
            answer,
        ) == DiscoveryView::<E>::Resolving(dir),
        discovery_request(DiscoveryView::<E>::Finished(Ok(root))) is None,
        discovery_request(DiscoveryView::<E>::Finished(Err(e))) is None,
        discovery_next(DiscoveryView::<E>::Finished(Ok(root)), answer) == DiscoveryView::<
            E,
        >::Finished(Ok(root)),
        discovery_next(DiscoveryView::<E>::Finished(Err(e)), answer) == DiscoveryView::<
            E,
        >::Finished(Err(e)),
{
}

}
