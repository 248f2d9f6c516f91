//! Where groups and entries lie.
use crate::entries::FileRecord;
use crate::evict::{evicted, EvictPolicy, EvictionReport};
use crate::evict_laws::only_found_files_are_evicted;
use crate::group::CacheGroup;
use crate::naming::{decimal, decimal_has_only_digits, decimal_is_injective, thread_dir_name_bytes};
use crate::path::{
    body_components, body_start, components, head_components, is_absolute, join,
    segment_component, segment_end, Component, DOT, SEPARATOR,
};
use crate::path_laws::{
    is_under, is_under_is_transitive, join_appends_components, join_is_associative,
    joined_path_stays_under_base,
};
use crate::process::thread_group_path;
use crate::root::{entry_location, CacheRoot};
use crate::select::evicted_paths;
use vstd::prelude::*;
use vstd::std_specs::cmp::PartialEqSpec;
use vstd::utf8::encode_utf8;

verus! {

/// A group that is named relative to a root lies under the root, and so do its
/// subgroups and entries that are named relative to it.
pub proof fn groups_and_entries_lie_under_root(
    root: Seq<u8>,
    relative_group: Seq<u8>,
    relative_path: Seq<u8>,
)
    requires
        !is_absolute(relative_group),
        !is_absolute(relative_path),
    ensures
        is_under(join(root, relative_group), root),
        is_under(join(join(root, relative_group), relative_path), root),
        is_under(
            join(join(root, relative_group), relative_path),
            join(root, relative_group),
        ),
        is_under(entry_location(root, relative_group, relative_path), root),
{
    let group = join(root, relative_group);
    joined_path_stays_under_base(root, relative_group);
    joined_path_stays_under_base(group, relative_path);
    is_under_is_transitive(join(group, relative_path), group, root);
}

/// A subgroup of a group is the group that is named by both names together.
pub proof fn subgroup_is_nested_group(root: Seq<u8>, outer: Seq<u8>, inner: Seq<u8>)
    ensures
        join(join(root, outer), inner) == join(root, join(outer, inner)),
{
    join_is_associative(root, outer, inner);
}

/// The path of a group is where the group lies, seen from the current directory.
pub proof fn group_path_is_group_from_current_dir(
    cwd: Seq<u8>,
    root: Seq<u8>,
    relative_group: Seq<u8>,
)
    ensures
        join(join(cwd, root), relative_group) == join(cwd, join(root, relative_group)),
        is_absolute(cwd) ==> is_absolute(join(join(cwd, root), relative_group)),
        is_absolute(root) ==> join(join(cwd, root), relative_group) == join(root, relative_group),
{
    join_is_associative(cwd, root, relative_group);
}

/// An absolute entry path is not moved, whatever the root and the group.
pub proof fn absolute_entry_path_is_kept(root: Seq<u8>, cache_dir: Seq<u8>, path: Seq<u8>)
    requires
        is_absolute(path),
    ensures
        entry_location(root, cache_dir, path) == path,
        join(join(root, cache_dir), path) == path,
{
}

/// Where all files that were found lie under a group, so do all that are
/// evicted: the policy of one group does not reach into another.
pub proof fn evictions_stay_in_group(
    group: Seq<u8>,
    found: Seq<FileRecord>,
    now: int,
    policy: EvictPolicy,
)
    requires
        forall|i: int| 0 <= i < found.len() ==> is_under(#[trigger] found[i].path, group),
    ensures
        forall|i: int|
            0 <= i < evicted_paths(found, now, policy).len() ==> is_under(
                #[trigger] evicted_paths(found, now, policy)[i],
                group,
            ),
{
    let gone = evicted(found, now, policy);
    assert forall|i: int| 0 <= i < evicted_paths(found, now, policy).len() implies is_under(
        #[trigger] evicted_paths(found, now, policy)[i],
        group,
    ) by {
        assert(gone.contains(gone[i]));
        only_found_files_are_evicted(found, now, policy, gone[i]);
        let k = choose|k: int| 0 <= k < found.len() && found[k] == gone[i];
        assert(is_under(found[k].path, group));
    }
}

proof fn lemma_plain_name(name: Seq<u8>, i: int)
    requires
        0 <= i <= name.len(),
        forall|k: int| 0 <= k < name.len() ==> #[trigger] name[k] != SEPARATOR,
    ensures
        segment_end(name, i) == name.len(),
    decreases name.len() - i,
{
    if i < name.len() {
        lemma_plain_name(name, i + 1);
    }
}

/// The directory name of a thread is one plain component.
proof fn lemma_thread_dir_name(id: int)
    requires
        id >= 0,
    ensures
        !is_absolute(thread_dir_name_bytes(id)),
        components(thread_dir_name_bytes(id)) == seq![
            Component::Normal(thread_dir_name_bytes(id)),
        ],
        body_start(thread_dir_name_bytes(id)) == 0,
{
    let name = thread_dir_name_bytes(id);
    let front = encode_utf8("thread-"@);
    reveal_strlit("thread-");
    vstd::utf8::is_ascii_chars_encode_utf8("thread-"@);
    decimal_has_only_digits(id);
    assert(front.len() == 7);
    assert(name[0] == 't' as u8);
    assert forall|k: int| 0 <= k < name.len() implies #[trigger] name[k] != SEPARATOR by {
        if k >= 7 {
            assert(name[k] == decimal(id)[k - 7]);
        }
    }
    lemma_plain_name(name, 0);
    assert(name.subrange(0, name.len() as int) =~= name);
    assert(name.len() > 2);
    assert(seq![DOT].len() == 1 && seq![DOT, DOT].len() == 2);
    assert(segment_component(name) == Some(Component::Normal(name)));
    assert(body_components(name, name.len() as int + 1) =~= seq![]);
    assert(components(name) =~= seq![Component::Normal(name)]);
}

/// The groups of two threads of a process are different directories.
pub proof fn thread_groups_differ(process: Seq<u8>, a: int, b: int)
    requires
        a >= 0,
        b >= 0,
        a != b,
    ensures
        components(thread_group_path(process, a)) != components(thread_group_path(process, b)),
{
    let m = thread_dir_name_bytes(a);
    let n = thread_dir_name_bytes(b);
    lemma_thread_dir_name(a);
    lemma_thread_dir_name(b);
    assert(m != n) by {
        if m == n {
            let front = encode_utf8("thread-"@).len() as int;
            assert(decimal(a) =~= m.skip(front));
            assert(decimal(b) =~= n.skip(front));
            decimal_is_injective(a, b);
        }
    }
    if process.len() > 0 {
        join_appends_components(process, m);
        join_appends_components(process, n);
    } else {
        assert(thread_group_path(process, a) =~= m);
        assert(thread_group_path(process, b) =~= n);
    }
    let last_a = components(thread_group_path(process, a)).last();
    let last_b = components(thread_group_path(process, b)).last();
    assert(head_components(m) =~= seq![]);
    assert(head_components(n) =~= seq![]);
    assert(last_a == Component::Normal(m));
    assert(last_b == Component::Normal(n));
}

/// The group of a thread, and every entry that is named relative to it, lie
/// under the directory of the process, and with it under any directory that the
/// process's directory lies under.
pub proof fn thread_entries_lie_under_process(
    process: Seq<u8>,
    base: Seq<u8>,
    thread_id: int,
    relative_file: Seq<u8>,
)
    requires
        thread_id >= 0,
        is_under(process, base),
        !is_absolute(relative_file),
    ensures
        is_under(thread_group_path(process, thread_id), process),
        is_under(
            join(thread_group_path(process, thread_id), relative_file),
            thread_group_path(process, thread_id),
        ),
        is_under(join(thread_group_path(process, thread_id), relative_file), process),
        is_under(join(thread_group_path(process, thread_id), relative_file), base),
{
    let group = thread_group_path(process, thread_id);
    let entry = join(group, relative_file);
    lemma_thread_dir_name(thread_id);
    joined_path_stays_under_base(process, thread_dir_name_bytes(thread_id));
    joined_path_stays_under_base(group, relative_file);
    is_under_is_transitive(entry, group, process);
    is_under_is_transitive(entry, process, base);
}

/// The path of an entry in a group is that of the group joined with that of the
/// entry, whatever components the group has; only an entry that starts with `/`
/// stands alone.
pub proof fn cache_path_is_the_entry_of_its_group(
    root: Seq<u8>,
    cache_dir: Seq<u8>,
    relative_path: Seq<u8>,
)
    ensures
        relative_path.len() > 0 && relative_path[0] == 47u8 ==> entry_location(
            root,
            cache_dir,
            relative_path,
        ) == relative_path,
        !(relative_path.len() > 0 && relative_path[0] == 47u8) ==> entry_location(
            root,
            cache_dir,
            relative_path,
        ) == join(join(root, cache_dir), relative_path),
        !(relative_path.len() > 0 && relative_path[0] == 47u8) ==> is_under(
            entry_location(root, cache_dir, relative_path),
            join(root, cache_dir),
        ),
{
    if !is_absolute(relative_path) {
        joined_path_stays_under_base(join(root, cache_dir), relative_path);
    }
}

/// Groups that are different directories do not share an entry: the same
/// relative path names different entries in them.
pub proof fn groups_do_not_share_entries(
    root: Seq<u8>,
    a: Seq<u8>,
    b: Seq<u8>,
    relative_path: Seq<u8>,
)
    requires
        root.len() > 0,
        components(join(root, a)) != components(join(root, b)),
        !is_absolute(relative_path),
    ensures
        components(entry_location(root, a, relative_path)) != components(
            entry_location(root, b, relative_path),
        ),
{
    let x = join(root, a);
    let y = join(root, b);
    join_appends_components(x, relative_path);
    join_appends_components(y, relative_path);
    let c = components(entry_location(root, a, relative_path));
    let d = components(entry_location(root, b, relative_path));
    let n = components(x).len() as int;
    if c == d {
        assert(components(x) =~= c.take(n));
        assert(components(y) =~= d.take(n));
    }
}

/// The directory of a thread is the directory of the process with one component
/// more, `thread-` and the number of the thread.
pub proof fn thread_group_is_one_component_below_the_process(process: Seq<u8>, thread_id: int)
    requires
        thread_id >= 0,
        process.len() > 0,
    ensures
        thread_group_path(process, thread_id) == join(
            process,
            encode_utf8("thread-"@) + decimal(thread_id),
        ),
        components(thread_group_path(process, thread_id)) == components(process).push(
            Component::Normal(encode_utf8("thread-"@) + decimal(thread_id)),
        ),
{
    let name = thread_dir_name_bytes(thread_id);
    lemma_thread_dir_name(thread_id);
    join_appends_components(process, name);
    assert(head_components(name) =~= seq![]);
    assert(components(thread_group_path(process, thread_id)) =~= components(process).push(
        Component::Normal(name),
    ));
}

/// Cache roots, and likewise groups, are equal exactly where their paths have the
/// same components, and reports where their paths do, one by one.
pub proof fn roots_groups_and_reports_are_equal_by_path(
    a: CacheRoot,
    b: CacheRoot,
    g: CacheGroup,
    h: CacheGroup,
    r: EvictionReport,
    s: EvictionReport,
)
    ensures
        a.eq_spec(&b) <==> components(a@) == components(b@),
        g.eq_spec(&h) <==> components(g@) == components(h@),
        r.eq_spec(&s) <==> r@.len() == s@.len() && forall|k: int|
            0 <= k < r@.len() ==> components(#[trigger] r@[k]) == components(s@[k]),
{
}

}
