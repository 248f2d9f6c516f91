//! What holds of every selection that an eviction policy makes.
use crate::entries::{
    entry_order, lemma_entry_order, lemma_is_oldest_first_of, oldest_first,
    oldest_first_is_sorted_and_stable, records, ties_with, FileEntry, FileRecord,
};
use crate::evict::{
    evicted, evicted_by_age, evicted_count, excess_files, excess_prefix, fresh_oldest_first,
    is_expired, is_fresh, kept, lemma_excess_prefix, record_paths, total_len, EvictPolicy,
    EvictionReport,
};
use crate::path::{components, path_order, Comparison};
use crate::path_order::path_order_is_antisymmetric;
use crate::time::age_at;
use vstd::prelude::*;

verus! {

/// Whether a list of files exceeds none of the limits of `policy` at `now`.
pub open spec fn is_within_limits(s: Seq<FileRecord>, now: int, policy: EvictPolicy) -> bool {
    &&& forall|i: int| 0 <= i < s.len() ==> !is_expired(policy, now)(#[trigger] s[i])
    &&& policy.max_files matches Some(max_files) ==> s.len() <= max_files
    &&& policy.max_bytes matches Some(max_bytes) ==> total_len(s) <= max_bytes
}

/// Filtering by a test that `x` passes keeps all that equals `x`, and by one
/// that it fails, nothing.
proof fn lemma_filter_count(s: Seq<FileRecord>, p: spec_fn(FileRecord) -> bool, x: FileRecord)
    ensures
        s.filter(p).to_multiset().count(x) == if p(x) {
            s.to_multiset().count(x)
        } else {
            0
        },
    decreases s.len(),
{
    broadcast use vstd::seq_lib::group_to_multiset_ensures;

    if s.len() > 0 {
        let front = s.drop_last();
        let last = s.last();
        lemma_filter_count(front, p, x);
        assert(s =~= front.push(last));
        front.lemma_filter_push(last, p);
    } else {
        s.lemma_filter_len(p);
        assert(s.filter(p) =~= s);
        assert(s.to_multiset().len() == 0);
    }
}

/// Putting files oldest first loses none and adds none.
pub proof fn oldest_first_keeps_files(s: Seq<FileRecord>)
    ensures
        oldest_first(s).to_multiset() == s.to_multiset(),
        oldest_first(s).len() == s.len(),
{
    broadcast use vstd::seq_lib::group_to_multiset_ensures;

    let t = oldest_first(s);
    oldest_first_is_sorted_and_stable(s);
    assert forall|x: FileRecord| t.to_multiset().count(x) == s.to_multiset().count(x) by {
        let p = ties_with(x);
        lemma_entry_order(x, x);
        lemma_filter_count(t, p, x);
        lemma_filter_count(s, p, x);
        assert(t.filter(p) == s.filter(p));
    }
    assert(t.to_multiset() =~= s.to_multiset());
    assert(t.to_multiset().len() == t.len());
    assert(s.to_multiset().len() == s.len());
}

proof fn lemma_add_to_multiset(a: Seq<FileRecord>, b: Seq<FileRecord>)
    ensures
        (a + b).to_multiset() == a.to_multiset().add(b.to_multiset()),
{
    vstd::seq_lib::lemma_multiset_commutative(a, b);
}

/// The number of files that are evicted besides those that are too old lies
/// between none and all.
proof fn lemma_evicted_count(fresh: Seq<FileRecord>, policy: EvictPolicy)
    ensures
        0 <= excess_files(policy, fresh.len()) <= evicted_count(fresh, policy) <= fresh.len(),
{
    let by_count = excess_files(policy, fresh.len());
    if let Some(max_bytes) = policy.max_bytes {
        lemma_excess_prefix(fresh.skip(by_count), max_bytes as int);
    }
}

/// Every file is either evicted or kept, and none is both.
pub proof fn every_file_is_evicted_or_kept(s: Seq<FileRecord>, now: int, policy: EvictPolicy)
    ensures
        (evicted(s, now, policy) + kept(s, now, policy)).to_multiset() == s.to_multiset(),
        evicted(s, now, policy).len() + kept(s, now, policy).len() == s.len(),
{
    broadcast use vstd::seq_lib::group_to_multiset_ensures;

    let aged = evicted_by_age(s, now, policy);
    let young = s.filter(is_fresh(policy, now));
    let fresh = fresh_oldest_first(s, now, policy);
    let count = evicted_count(fresh, policy);
    lemma_evicted_count(fresh, policy);
    oldest_first_keeps_files(young);
    let all = evicted(s, now, policy) + kept(s, now, policy);
    assert(all =~= aged + fresh);
    lemma_add_to_multiset(aged, fresh);
    assert forall|x: FileRecord| all.to_multiset().count(x) == s.to_multiset().count(x) by {
        lemma_filter_count(s, is_expired(policy, now), x);
        lemma_filter_count(s, is_fresh(policy, now), x);
    }
    assert(all.to_multiset() =~= s.to_multiset());
    assert(all.to_multiset().len() == all.len());
    assert(s.to_multiset().len() == s.len());
}

/// No file is evicted but one of those that were found.
pub proof fn only_found_files_are_evicted(
    s: Seq<FileRecord>,
    now: int,
    policy: EvictPolicy,
    e: FileRecord,
)
    requires
        evicted(s, now, policy).contains(e),
    ensures
        s.contains(e),
{
    broadcast use vstd::seq_lib::group_to_multiset_ensures;

    let all = evicted(s, now, policy) + kept(s, now, policy);
    let i = choose|i: int| 0 <= i < evicted(s, now, policy).len() && evicted(s, now, policy)[i] == e;
    every_file_is_evicted_or_kept(s, now, policy);
    assert(all[i] == e);
    assert(all.contains(e));
    assert(s.to_multiset().contains(e));
}

proof fn lemma_excess_prefix_suffices(s: Seq<FileRecord>, max_bytes: int)
    requires
        max_bytes >= 0,
    ensures
        total_len(s.skip(excess_prefix(s, max_bytes))) <= max_bytes,
        excess_prefix(s, max_bytes) > 0 ==> total_len(s.skip(excess_prefix(s, max_bytes) - 1))
            > max_bytes,
    decreases s.len(),
{
    lemma_excess_prefix(s, max_bytes);
    if s.len() > 0 && total_len(s) > max_bytes {
        let rest = s.drop_first();
        let n = excess_prefix(rest, max_bytes);
        lemma_excess_prefix(rest, max_bytes);
        lemma_excess_prefix_suffices(rest, max_bytes);
        assert(s.skip(n + 1) =~= rest.skip(n));
        if n > 0 {
            assert(s.skip(n) =~= rest.skip(n - 1));
        } else {
            assert(s.skip(0) =~= s);
        }
    } else {
        assert(s.skip(0) =~= s);
    }
}

/// No file that is still fresh was too old before it was put in order.
proof fn lemma_fresh_is_not_expired(s: Seq<FileRecord>, now: int, policy: EvictPolicy, i: int)
    requires
        0 <= i < fresh_oldest_first(s, now, policy).len(),
    ensures
        !is_expired(policy, now)(fresh_oldest_first(s, now, policy)[i]),
{
    broadcast use vstd::seq_lib::group_to_multiset_ensures;

    let young = s.filter(is_fresh(policy, now));
    let fresh = fresh_oldest_first(s, now, policy);
    oldest_first_keeps_files(young);
    assert(fresh.contains(fresh[i]));
    assert(fresh.to_multiset().contains(fresh[i]));
    assert(young.contains(fresh[i]));
    let k = choose|k: int| 0 <= k < young.len() && young[k] == fresh[i];
    s.lemma_filter_pred(is_fresh(policy, now), k);
}

/// The files that a policy leaves are within all its limits.
pub proof fn kept_files_are_within_limits(s: Seq<FileRecord>, now: int, policy: EvictPolicy)
    ensures
        is_within_limits(kept(s, now, policy), now, policy),
{
    let fresh = fresh_oldest_first(s, now, policy);
    let by_count = excess_files(policy, fresh.len());
    let count = evicted_count(fresh, policy);
    let left = kept(s, now, policy);
    lemma_evicted_count(fresh, policy);
    assert forall|i: int| 0 <= i < left.len() implies !is_expired(policy, now)(
        #[trigger] left[i],
    ) by {
        lemma_fresh_is_not_expired(s, now, policy, count + i);
    }
    if let Some(max_bytes) = policy.max_bytes {
        lemma_excess_prefix_suffices(fresh.skip(by_count), max_bytes as int);
        assert(left =~= fresh.skip(by_count).skip(count - by_count));
    }
}

/// A file that is evicted though it is not too old comes after no file that is
/// kept.
pub proof fn oldest_files_are_evicted_first(
    s: Seq<FileRecord>,
    now: int,
    policy: EvictPolicy,
    i: int,
    j: int,
)
    requires
        evicted_by_age(s, now, policy).len() <= i < evicted(s, now, policy).len(),
        0 <= j < kept(s, now, policy).len(),
    ensures
        entry_order(evicted(s, now, policy)[i], kept(s, now, policy)[j]) != Comparison::After,
{
    let fresh = fresh_oldest_first(s, now, policy);
    let count = evicted_count(fresh, policy);
    lemma_evicted_count(fresh, policy);
    oldest_first_is_sorted_and_stable(s.filter(is_fresh(policy, now)));
    let a = i - evicted_by_age(s, now, policy).len();
    assert(entry_order(fresh[a], fresh[count + j]) != Comparison::After);
}

/// A file that was modified at `now` comes after every file that was modified
/// before: it is no longer the oldest.
pub proof fn updated_file_comes_after_older_files(
    updated: FileRecord,
    other: FileRecord,
    now: int,
)
    requires
        updated.modified == now,
        other.modified < now,
    ensures
        entry_order(updated, other) == Comparison::After,
        entry_order(other, updated) == Comparison::Before,
{
}

/// Where files are evicted that are not too old, keeping the newest of them as
/// well would exceed a limit.
pub proof fn no_more_is_evicted_than_needed(s: Seq<FileRecord>, now: int, policy: EvictPolicy)
    requires
        evicted(s, now, policy).len() > evicted_by_age(s, now, policy).len(),
    ensures
        !is_within_limits(
            seq![evicted(s, now, policy).last()] + kept(s, now, policy),
            now,
            policy,
        ),
{
    let fresh = fresh_oldest_first(s, now, policy);
    let by_count = excess_files(policy, fresh.len());
    let count = evicted_count(fresh, policy);
    lemma_evicted_count(fresh, policy);
    let more = seq![evicted(s, now, policy).last()] + kept(s, now, policy);
    assert(more =~= fresh.skip(count - 1));
    if count > by_count {
        if let Some(max_bytes) = policy.max_bytes {
            lemma_excess_prefix_suffices(fresh.skip(by_count), max_bytes as int);
            assert(more =~= fresh.skip(by_count).skip(count - by_count - 1));
        }
    }
}

proof fn lemma_nothing_expired(s: Seq<FileRecord>, now: int, policy: EvictPolicy)
    requires
        forall|i: int| 0 <= i < s.len() ==> !is_expired(policy, now)(#[trigger] s[i]),
    ensures
        evicted_by_age(s, now, policy) == Seq::<FileRecord>::empty(),
        s.filter(is_fresh(policy, now)) == s,
    decreases s.len(),
{
    let p = is_expired(policy, now);
    let q = is_fresh(policy, now);
    if s.len() > 0 {
        let front = s.drop_last();
        assert forall|i: int| 0 <= i < front.len() implies !is_expired(policy, now)(
            #[trigger] front[i],
        ) by {
            assert(front[i] == s[i]);
        }
        lemma_nothing_expired(front, now, policy);
        assert(s =~= front.push(s.last()));
        assert(!p(s[s.len() - 1]));
        front.lemma_filter_push(s.last(), p);
        front.lemma_filter_push(s.last(), q);
    } else {
        s.lemma_filter_len(p);
        s.lemma_filter_len(q);
        assert(s.filter(p) =~= Seq::empty());
        assert(s.filter(q) =~= s);
    }
}

/// The total size does not depend on the order.
proof fn lemma_total_len_of_permutation(s: Seq<FileRecord>, t: Seq<FileRecord>)
    requires
        s.to_multiset() == t.to_multiset(),
    ensures
        total_len(s) == total_len(t),
    decreases s.len(),
{
    broadcast use vstd::seq_lib::group_to_multiset_ensures;

    assert(s.to_multiset().len() == s.len());
    assert(t.to_multiset().len() == t.len());
    if s.len() > 0 {
        let x = s[0];
        assert(s.contains(x));
        assert(t.to_multiset().contains(x));
        assert(t.contains(x));
        let k = choose|k: int| 0 <= k < t.len() && t[k] == x;
        vstd::seq_lib::to_multiset_remove(s, 0);
        vstd::seq_lib::to_multiset_remove(t, k);
        assert(s.remove(0) =~= s.drop_first());
        lemma_total_len_of_permutation(s.drop_first(), t.remove(k));
        lemma_total_len_remove(t, k);
    }
}

proof fn lemma_total_len_remove(s: Seq<FileRecord>, k: int)
    requires
        0 <= k < s.len(),
    ensures
        total_len(s) == s[k].len + total_len(s.remove(k)),
    decreases s.len(),
{
    if k == 0 {
        assert(s.remove(0) =~= s.drop_first());
    } else {
        lemma_total_len_remove(s.drop_first(), k - 1);
        assert(s.remove(k).drop_first() =~= s.drop_first().remove(k - 1));
    }
}

/// Files that exceed no limit are all kept.
pub proof fn files_within_limits_are_kept(s: Seq<FileRecord>, now: int, policy: EvictPolicy)
    requires
        is_within_limits(s, now, policy),
    ensures
        evicted(s, now, policy) == Seq::<FileRecord>::empty(),
        kept(s, now, policy) == oldest_first(s),
{
    lemma_nothing_expired(s, now, policy);
    oldest_first_keeps_files(s);
    let fresh = fresh_oldest_first(s, now, policy);
    lemma_total_len_of_permutation(fresh, s);
    assert(fresh.skip(0) =~= fresh);
    assert(evicted_count(fresh, policy) == 0);
    assert(evicted(s, now, policy) =~= Seq::empty());
}

/// A policy without limits evicts nothing.
pub proof fn policy_without_limits_evicts_nothing(
    s: Seq<FileRecord>,
    now: int,
    policy: EvictPolicy,
)
    requires
        policy.max_files is None,
        policy.max_bytes is None,
        policy.max_age is None,
    ensures
        evicted(s, now, policy) == Seq::<FileRecord>::empty(),
        kept(s, now, policy) == oldest_first(s),
{
    files_within_limits_are_kept(s, now, policy);
}

/// An age limit of nothing evicts every file, in the order in which they were
/// found.
pub proof fn zero_age_limit_evicts_every_file(s: Seq<FileRecord>, now: int, policy: EvictPolicy)
    requires
        policy.max_age matches Some(max_age) && max_age@ == 0,
    ensures
        evicted(s, now, policy) == s,
        kept(s, now, policy) == Seq::<FileRecord>::empty(),
{
    every_file_is_evicted_or_kept(s, now, policy);
    lemma_everything_expired(s, now, policy);
    assert(evicted(s, now, policy) =~= s);
}

proof fn lemma_everything_expired(s: Seq<FileRecord>, now: int, policy: EvictPolicy)
    requires
        policy.max_age matches Some(max_age) && max_age@ == 0,
    ensures
        evicted_by_age(s, now, policy) == s,
    decreases s.len(),
{
    let p = is_expired(policy, now);
    if s.len() > 0 {
        let front = s.drop_last();
        lemma_everything_expired(front, now, policy);
        assert(s =~= front.push(s.last()));
        front.lemma_filter_push(s.last(), p);
    } else {
        s.lemma_filter_len(p);
        assert(s.filter(p) =~= s);
    }
}

/// Selecting again from the files that were kept evicts nothing more.
pub proof fn second_selection_evicts_nothing(s: Seq<FileRecord>, now: int, policy: EvictPolicy)
    ensures
        evicted(kept(s, now, policy), now, policy) == Seq::<FileRecord>::empty(),
        kept(kept(s, now, policy), now, policy) == kept(s, now, policy),
{
    let left = kept(s, now, policy);
    let fresh = fresh_oldest_first(s, now, policy);
    let count = evicted_count(fresh, policy);
    lemma_evicted_count(fresh, policy);
    kept_files_are_within_limits(s, now, policy);
    files_within_limits_are_kept(left, now, policy);
    oldest_first_is_sorted_and_stable(s.filter(is_fresh(policy, now)));
    assert forall|i: int, j: int|
        #![trigger left[i], left[j]]
        0 <= i <= j < left.len() implies entry_order(left[i], left[j]) != Comparison::After by {
        assert(left[i] == fresh[count + i] && left[j] == fresh[count + j]);
    }
    lemma_is_oldest_first_of(left, left);
}

/// Without an age limit the time of the selection does not matter.
pub proof fn time_matters_only_for_age(
    s: Seq<FileRecord>,
    now: int,
    later: int,
    policy: EvictPolicy,
)
    requires
        policy.max_age is None,
    ensures
        evicted(s, now, policy) == evicted(s, later, policy),
        kept(s, now, policy) == kept(s, later, policy),
{
    assert(is_expired(policy, now) =~= is_expired(policy, later));
    assert(is_fresh(policy, now) =~= is_fresh(policy, later));
}

/// Whether no two files of `s` have the same path.
pub open spec fn has_distinct_paths(s: Seq<FileRecord>) -> bool {
    forall|i: int, j: int|
        #![trigger s[i], s[j]]
        0 <= i < j < s.len() ==> components(s[i].path) != components(s[j].path)
}

/// Files with distinct paths do not tie.
proof fn lemma_at_most_one_tie(s: Seq<FileRecord>, c: FileRecord)
    requires
        has_distinct_paths(s),
    ensures
        s.filter(ties_with(c)).len() <= 1,
    decreases s.len(),
{
    let p = ties_with(c);
    if s.len() == 0 {
        s.lemma_filter_len(p);
    } else {
        let front = s.drop_last();
        let last = s.last();
        assert forall|i: int, j: int|
            #![trigger front[i], front[j]]
            0 <= i < j < front.len() implies components(front[i].path) != components(
            front[j].path,
        ) by {
            assert(front[i] == s[i] && front[j] == s[j]);
        }
        lemma_at_most_one_tie(front, c);
        assert(s =~= front.push(last));
        front.lemma_filter_push(last, p);
        let f = front.filter(p);
        if p(last) && f.len() > 0 {
            front.lemma_filter_pred(p, 0);
            assert(f.contains(f[0]));
            front.lemma_filter_contains_rev(p, f[0]);
            let k = choose|k: int| 0 <= k < front.len() && front[k] == f[0];
            path_order_is_antisymmetric(f[0].path, c.path);
            path_order_is_antisymmetric(last.path, c.path);
            assert(s[k] == f[0] && s[s.len() - 1] == last);
        }
    }
}

proof fn lemma_filter_twice_len(
    s: Seq<FileRecord>,
    q: spec_fn(FileRecord) -> bool,
    p: spec_fn(FileRecord) -> bool,
)
    ensures
        s.filter(q).filter(p).len() <= s.filter(p).len(),
    decreases s.len(),
{
    if s.len() == 0 {
        s.lemma_filter_len(q);
        s.filter(q).lemma_filter_len(p);
    } else {
        let front = s.drop_last();
        let last = s.last();
        lemma_filter_twice_len(front, q, p);
        assert(s =~= front.push(last));
        front.lemma_filter_push(last, q);
        front.lemma_filter_push(last, p);
        front.filter(q).lemma_filter_push(last, p);
    }
}

/// Two lists of at most one file that hold the same files are equal.
proof fn lemma_short_lists_equal(a: Seq<FileRecord>, b: Seq<FileRecord>)
    requires
        a.len() <= 1,
        b.len() <= 1,
        forall|x: FileRecord| a.to_multiset().count(x) == b.to_multiset().count(x),
    ensures
        a == b,
{
    broadcast use vstd::seq_lib::group_to_multiset_ensures;

    if a.len() == 1 {
        assert(a.contains(a[0]));
        assert(a.to_multiset().count(a[0]) > 0);
        assert(b.contains(a[0]));
    } else if b.len() == 1 {
        assert(b.contains(b[0]));
        assert(b.to_multiset().count(b[0]) > 0);
        assert(a.contains(b[0]));
    }
    assert(a =~= b);
}

/// The order in which files with distinct paths were found does not matter:
/// the same files are kept, the same are evicted, and those that are evicted
/// though they are not too old are evicted in the same order.
pub proof fn selection_does_not_depend_on_scan_order(
    s: Seq<FileRecord>,
    t: Seq<FileRecord>,
    now: int,
    policy: EvictPolicy,
)
    requires
        s.to_multiset() == t.to_multiset(),
        has_distinct_paths(s),
        has_distinct_paths(t),
    ensures
        kept(s, now, policy) == kept(t, now, policy),
        evicted(s, now, policy).to_multiset() == evicted(t, now, policy).to_multiset(),
        evicted(s, now, policy).skip(evicted_by_age(s, now, policy).len() as int) == evicted(
            t,
            now,
            policy,
        ).skip(evicted_by_age(t, now, policy).len() as int),
{
    let q = is_fresh(policy, now);
    let young_s = s.filter(q);
    let young_t = t.filter(q);
    assert forall|c: FileRecord| #[trigger]
        oldest_first(young_s).filter(ties_with(c)) == young_t.filter(ties_with(c)) by {
        let p = ties_with(c);
        oldest_first_is_sorted_and_stable(young_s);
        assert(oldest_first(young_s).filter(p) == young_s.filter(p));
        lemma_at_most_one_tie(s, c);
        lemma_at_most_one_tie(t, c);
        lemma_filter_twice_len(s, q, p);
        lemma_filter_twice_len(t, q, p);
        assert forall|x: FileRecord|
            young_s.filter(p).to_multiset().count(x) == young_t.filter(p).to_multiset().count(
                x,
            ) by {
            lemma_filter_count(s, q, x);
            lemma_filter_count(t, q, x);
            lemma_filter_count(young_s, p, x);
            lemma_filter_count(young_t, p, x);
        }
        lemma_short_lists_equal(young_s.filter(p), young_t.filter(p));
    }
    oldest_first_is_sorted_and_stable(young_s);
    lemma_is_oldest_first_of(oldest_first(young_s), young_t);
    let fresh = fresh_oldest_first(s, now, policy);
    assert(fresh == fresh_oldest_first(t, now, policy));
    let oldest = fresh.take(evicted_count(fresh, policy));
    let aged_s = evicted_by_age(s, now, policy);
    let aged_t = evicted_by_age(t, now, policy);
    assert(evicted(s, now, policy).skip(aged_s.len() as int) =~= oldest);
    assert(evicted(t, now, policy).skip(aged_t.len() as int) =~= oldest);
    lemma_add_to_multiset(aged_s, oldest);
    lemma_add_to_multiset(aged_t, oldest);
    assert forall|x: FileRecord| aged_s.to_multiset().count(x) == aged_t.to_multiset().count(
        x,
    ) by {
        lemma_filter_count(s, is_expired(policy, now), x);
        lemma_filter_count(t, is_expired(policy, now), x);
    }
    assert(aged_s.to_multiset() =~= aged_t.to_multiset());
}

/// Of two files the one with the earlier modification time comes first, and of
/// two with the same time the one whose path comes first.
pub proof fn files_are_ordered_by_time_then_path(a: FileRecord, b: FileRecord)
    ensures
        a.modified < b.modified ==> entry_order(a, b) == Comparison::Before,
        a.modified > b.modified ==> entry_order(a, b) == Comparison::After,
        a.modified == b.modified ==> entry_order(a, b) == path_order(a.path, b.path),
{
}

/// Files that are put oldest first are the same files, by ascending modification
/// time, and those of the same time by their paths.
pub proof fn oldest_first_ascends_by_time_then_path(s: Seq<FileRecord>)
    ensures
        ({
            let t = oldest_first(s);
            &&& t.to_multiset() == s.to_multiset()
            &&& t.len() == s.len()
            &&& forall|i: int, j: int|
                #![trigger t[i], t[j]]
                0 <= i < j < t.len() ==> t[i].modified < t[j].modified || (t[i].modified
                    == t[j].modified && path_order(t[i].path, t[j].path) != Comparison::After)
        }),
{
    let t = oldest_first(s);
    oldest_first_keeps_files(s);
    oldest_first_is_sorted_and_stable(s);
    assert forall|i: int, j: int|
        #![trigger t[i], t[j]]
        0 <= i < j < t.len() implies t[i].modified < t[j].modified || (t[i].modified
        == t[j].modified && path_order(t[i].path, t[j].path) != Comparison::After) by {
        assert(entry_order(t[i], t[j]) != Comparison::After);
    }
}

/// Records of the same time and path keep their order when files are put oldest
/// first.
pub proof fn oldest_first_keeps_the_order_of_ties(s: Seq<FileRecord>, x: FileRecord)
    ensures
        oldest_first(s).filter(
            |y: FileRecord|
                y.modified == x.modified && components(y.path) == components(x.path),
        ) == s.filter(
            |y: FileRecord|
                y.modified == x.modified && components(y.path) == components(x.path),
        ),
{
    let p = |y: FileRecord| y.modified == x.modified && components(y.path) == components(x.path);
    assert forall|y: FileRecord| #[trigger] p(y) == ties_with(x)(y) by {
        path_order_is_antisymmetric(y.path, x.path);
    }
    assert(p =~= ties_with(x));
    oldest_first_is_sorted_and_stable(s);
    assert(oldest_first(s).filter(ties_with(x)) == s.filter(ties_with(x)));
}

proof fn lemma_total_len_is_sum(s: Seq<FileRecord>)
    ensures
        total_len(s) == s.fold_left(0int, |sum: int, e: FileRecord| sum + e.len),
    decreases s.len(),
{
    if s.len() > 0 {
        lemma_total_len_remove(s, s.len() - 1);
        assert(s.remove(s.len() - 1) =~= s.drop_last());
        lemma_total_len_is_sum(s.drop_last());
    }
}

/// What a policy evicts: first the files whose age, which is nothing for files of
/// the future, has reached the age limit, in the order in which they were found;
/// then, of the others oldest first, as many as it takes, and no more, until no
/// more files are left than the file limit allows, and no more bytes in all than
/// the byte limit allows: without `m` of the others, where no more than those go,
/// the rest is within the two limits exactly where `m` is the number that goes.
/// The rest is kept.
pub proof fn eviction_is_by_age_and_then_until_the_rest_fits(
    s: Seq<FileRecord>,
    now: int,
    policy: EvictPolicy,
    m: int,
)
    ensures
        ({
            let too_old = |e: FileRecord|
                match policy.max_age {
                    Some(limit) => (if now > e.modified {
                        now - e.modified
                    } else {
                        0
                    }) >= limit@,
                    None => false,
                };
            let aged = s.filter(too_old);
            let others = oldest_first(s.filter(|e: FileRecord| !too_old(e)));
            let n = evicted(s, now, policy).len() - aged.len();
            let rest = others.skip(m);
            let fits = (match policy.max_files {
                Some(limit) => rest.len() <= limit,
                None => true,
            }) && (match policy.max_bytes {
                Some(limit) => rest.fold_left(0int, |sum: int, e: FileRecord| sum + e.len) <= limit,
                None => true,
            });
            &&& 0 <= n <= others.len()
            &&& evicted(s, now, policy) == aged + others.take(n)
            &&& kept(s, now, policy) == others.skip(n)
            &&& 0 <= m <= n ==> (fits <==> m == n)
        }),
{
    let too_old = |e: FileRecord|
        match policy.max_age {
            Some(limit) => (if now > e.modified {
                now - e.modified
            } else {
                0
            }) >= limit@,
            None => false,
        };
    let young = |e: FileRecord| !too_old(e);
    assert(too_old =~= is_expired(policy, now));
    assert(young =~= is_fresh(policy, now));
    let fresh = fresh_oldest_first(s, now, policy);
    let by_count = excess_files(policy, fresh.len());
    let n = evicted_count(fresh, policy);
    lemma_evicted_count(fresh, policy);
    assert(fresh.take(n).len() == n);
    if 0 <= m <= n {
        let rest = fresh.skip(m);
        lemma_total_len_is_sum(rest);
        if m >= by_count {
            assert(fresh.skip(by_count).skip(m - by_count) =~= rest);
            if let Some(limit) = policy.max_bytes {
                lemma_excess_prefix_is_first_fit(
                    fresh.skip(by_count),
                    limit as int,
                    m - by_count,
                );
            }
        }
    }
}

proof fn lemma_excess_prefix_is_first_fit(s: Seq<FileRecord>, max_bytes: int, m: int)
    requires
        max_bytes >= 0,
        0 <= m <= excess_prefix(s, max_bytes),
    ensures
        total_len(s.skip(m)) <= max_bytes <==> m == excess_prefix(s, max_bytes),
    decreases s.len(),
{
    lemma_excess_prefix(s, max_bytes);
    if m == 0 {
        assert(s.skip(0) =~= s);
        if s.len() > 0 {
            lemma_excess_prefix(s.drop_first(), max_bytes);
        }
    } else {
        lemma_excess_prefix_is_first_fit(s.drop_first(), max_bytes, m - 1);
        assert(s.skip(m) =~= s.drop_first().skip(m - 1));
    }
}

/// Where there is only an age limit, a file is evicted exactly where the time
/// from its modification until now has reached the limit; a file of the future
/// has no age.
pub proof fn age_limit_evicts_exactly_the_files_of_that_age(
    s: Seq<FileRecord>,
    now: int,
    policy: EvictPolicy,
    e: FileRecord,
)
    requires
        policy.max_age is Some,
        policy.max_files is None,
        policy.max_bytes is None,
        s.contains(e),
    ensures
        evicted(s, now, policy).contains(e) <==> (if now > e.modified {
            now - e.modified
        } else {
            0
        }) >= policy.max_age->0@,
        kept(s, now, policy).contains(e) <==> (if now > e.modified {
            now - e.modified
        } else {
            0
        }) < policy.max_age->0@,
{
    broadcast use vstd::seq_lib::group_to_multiset_ensures;

    let fresh = fresh_oldest_first(s, now, policy);
    let young = s.filter(is_fresh(policy, now));
    let aged = evicted_by_age(s, now, policy);
    assert(evicted_count(fresh, policy) == 0);
    assert(evicted(s, now, policy) =~= aged);
    assert(kept(s, now, policy) =~= fresh);
    oldest_first_keeps_files(young);
    lemma_filter_count(s, is_expired(policy, now), e);
    lemma_filter_count(s, is_fresh(policy, now), e);
    assert(s.to_multiset().count(e) > 0);
    assert(aged.contains(e) <==> aged.to_multiset().count(e) > 0);
    assert(fresh.contains(e) <==> fresh.to_multiset().count(e) > 0);
}

/// Whatever the other limits, every file that has reached the age limit is
/// evicted, and no file that is kept has reached it.
pub proof fn files_of_the_limit_age_are_never_kept(
    s: Seq<FileRecord>,
    now: int,
    policy: EvictPolicy,
    e: FileRecord,
)
    requires
        policy.max_age is Some,
        s.contains(e),
        now > e.modified && now - e.modified >= policy.max_age->0@ || policy.max_age->0@ <= 0,
    ensures
        evicted(s, now, policy).contains(e),
        !kept(s, now, policy).contains(e),
{
    broadcast use vstd::seq_lib::group_to_multiset_ensures;

    let aged = evicted_by_age(s, now, policy);
    lemma_filter_count(s, is_expired(policy, now), e);
    assert(s.to_multiset().count(e) > 0);
    assert(aged.to_multiset().count(e) > 0);
    assert(aged.contains(e));
    let i = choose|i: int| 0 <= i < aged.len() && aged[i] == e;
    assert(evicted(s, now, policy)[i] == e);
    kept_files_are_within_limits(s, now, policy);
}

/// Where there is only a file limit, that many files are kept, or all where there
/// are no more.
pub proof fn file_limit_keeps_that_many_files(s: Seq<FileRecord>, now: int, policy: EvictPolicy)
    requires
        policy.max_files is Some,
        policy.max_age is None,
        policy.max_bytes is None,
    ensures
        s.len() <= policy.max_files->0 ==> kept(s, now, policy).len() == s.len(),
        s.len() > policy.max_files->0 ==> kept(s, now, policy).len() == policy.max_files->0,
        evicted(s, now, policy).len() + kept(s, now, policy).len() == s.len(),
{
    every_file_is_evicted_or_kept(s, now, policy);
    assert forall|i: int| 0 <= i < s.len() implies !is_expired(policy, now)(#[trigger] s[i]) by {}
    lemma_nothing_expired(s, now, policy);
    oldest_first_keeps_files(s);
}

/// A record says what the entry holds, field by field, and a list of records what
/// the entries hold, one by one.
pub proof fn records_say_what_the_entries_hold(entries: Seq<FileEntry>, i: int)
    requires
        0 <= i < entries.len(),
    ensures
        records(entries).len() == entries.len(),
        records(entries)[i].path == entries[i].path@,
        records(entries)[i].modified == entries[i].modified@,
        records(entries)[i].len == entries[i].len,
        entries[i]@.path == entries[i].path@,
        entries[i]@.modified == entries[i].modified@,
        entries[i]@.len == entries[i].len,
{
}

/// A report says its paths, one by one and in order, and the paths of records are
/// those that the records hold.
pub proof fn reports_say_their_paths(report: EvictionReport, s: Seq<FileRecord>)
    ensures
        report@.len() == report.marked_for_eviction@.len(),
        forall|i: int|
            0 <= i < report@.len() ==> #[trigger] report@[i] == report.marked_for_eviction@[i]@,
        record_paths(s).len() == s.len(),
        forall|i: int| 0 <= i < s.len() ==> #[trigger] record_paths(s)[i] == s[i].path,
        records(Seq::empty()).len() == 0,
{
}

/// An age is the time that has passed, and nothing for what lies ahead.
pub proof fn age_is_time_passed(now: int, modified: int)
    ensures
        now >= modified ==> age_at(now, modified) == now - modified,
        now < modified ==> age_at(now, modified) == 0,
{
}

}
