//! Eviction policies and the selection of the files that they evict.
use crate::entries::{oldest_first, records, sort_entries_oldest_first, FileEntry, FileRecord};
use crate::path::{components, path_bytes, PosixPath};
use crate::time::{age_at, Duration, Timestamp};
use vstd::prelude::*;
use vstd::std_specs::cmp::PartialEqSpecImpl;

verus! {

/// Optional limits on the files under a cache directory.
///
/// The limits are enforced in this order: `max_age`, then `max_files`, then
/// `max_bytes`. For the last two the files are taken oldest first, and of two
/// files of the same modification time the one whose path comes first.
#[derive(Clone, Copy, Debug, PartialEq, Eq, Structural)]
pub struct EvictPolicy {
    /// The number of files to keep at most.
    pub max_files: Option<usize>,
    /// The number of bytes to keep at most, over all files.
    pub max_bytes: Option<u64>,
    /// The age from which on a file is evicted.
    pub max_age: Option<Duration>,
}

impl Default for EvictPolicy {
    fn default() -> (r: Self)
        ensures
            r == (EvictPolicy { max_files: None, max_bytes: None, max_age: None }),
    {
        EvictPolicy { max_files: None, max_bytes: None, max_age: None }
    }
}

/// The files that a policy selects for eviction.
#[derive(Debug)]
pub struct EvictionReport {
    /// The paths of the files, in the order in which they are evicted. In the
    /// report on a group they are absolute.
    pub marked_for_eviction: Vec<PosixPath>,
}

impl View for EvictionReport {
    type V = Seq<Seq<u8>>;

    /// The bytes of the paths, in order.
    open spec fn view(&self) -> Seq<Seq<u8>> {
        path_bytes(self.marked_for_eviction@)
    }
}

impl Default for EvictionReport {
    fn default() -> (r: Self)
        ensures
            r@ == Seq::<Seq<u8>>::empty(),
    {
        let r = EvictionReport { marked_for_eviction: Vec::new() };
        assert(r@ =~= Seq::empty());
        r
    }
}

impl Clone for EvictionReport {
    fn clone(&self) -> (r: Self)
        ensures
            r@ == self@,
    {
        let mut paths: Vec<PosixPath> = Vec::new();
        let mut i: usize = 0;
        while i < self.marked_for_eviction.len()
            invariant
                i <= self.marked_for_eviction@.len(),
                path_bytes(paths@) == self@.take(i as int),
            decreases self.marked_for_eviction@.len() - i,
        {
            let ghost old_paths = paths@;
            paths.push(self.marked_for_eviction[i].clone());
            i = i + 1;
            assert(path_bytes(paths@) =~= path_bytes(old_paths).push(self@[i - 1]));
            assert(path_bytes(paths@) =~= self@.take(i as int));
        }
        assert(self@.take(i as int) =~= self@);
        EvictionReport { marked_for_eviction: paths }
    }
}

impl PartialEq for EvictionReport {
    fn eq(&self, other: &Self) -> (r: bool) {
        if self.marked_for_eviction.len() != other.marked_for_eviction.len() {
            return false;
        }
        let mut i: usize = 0;
        while i < self.marked_for_eviction.len()
            invariant
                self@.len() == other@.len() == self.marked_for_eviction@.len(),
                i <= self@.len(),
                forall|k: int|
                    0 <= k < i ==> components(#[trigger] self@[k]) == components(other@[k]),
            decreases self@.len() - i,
        {
            if self.marked_for_eviction[i] != other.marked_for_eviction[i] {
                assert(components(self@[i as int]) != components(other@[i as int]));
                return false;
            }
            i = i + 1;
        }
        true
    }
}

impl PartialEqSpecImpl for EvictionReport {
    open spec fn obeys_eq_spec() -> bool {
        true
    }

    open spec fn eq_spec(&self, other: &Self) -> bool {
        &&& self@.len() == other@.len()
        &&& forall|k: int|
            0 <= k < self@.len() ==> components(#[trigger] self@[k]) == components(other@[k])
    }
}

impl Eq for EvictionReport {

}

/// The paths of a list of records, in order.
pub open spec fn record_paths(s: Seq<FileRecord>) -> Seq<Seq<u8>> {
    Seq::new(s.len(), |i: int| s[i].path)
}

/// The total size of the files of `s`.
pub open spec fn total_len(s: Seq<FileRecord>) -> int
    decreases s.len(),
{
    if s.len() == 0 {
        0
    } else {
        s[0].len + total_len(s.drop_first())
    }
}

/// The test for files that have reached the age limit of `policy` at `now`.
pub open spec fn is_expired(policy: EvictPolicy, now: int) -> spec_fn(FileRecord) -> bool {
    |e: FileRecord|
        match policy.max_age {
            Some(max_age) => age_at(now, e.modified) >= max_age@,
            None => false,
        }
}

/// The test for files that have not reached the age limit.
pub open spec fn is_fresh(policy: EvictPolicy, now: int) -> spec_fn(FileRecord) -> bool {
    |e: FileRecord| !is_expired(policy, now)(e)
}

/// By how many files `count` exceeds the limit of `policy`.
pub open spec fn excess_files(policy: EvictPolicy, count: nat) -> int {
    match policy.max_files {
        Some(max_files) => if count > max_files {
            count - max_files
        } else {
            0
        },
        None => 0,
    }
}

/// How many of the first files of `s` have to go until the total size of the
/// rest is at most `max_bytes`.
pub open spec fn excess_prefix(s: Seq<FileRecord>, max_bytes: int) -> int
    decreases s.len(),
{
    if s.len() == 0 || total_len(s) <= max_bytes {
        0
    } else {
        1 + excess_prefix(s.drop_first(), max_bytes)
    }
}

/// How many of the first files of `s` exceed the size limit of `policy`.
pub open spec fn excess_bytes(policy: EvictPolicy, s: Seq<FileRecord>) -> int {
    match policy.max_bytes {
        Some(max_bytes) => excess_prefix(s, max_bytes as int),
        None => 0,
    }
}

/// The files of `s` that are too old, in the order of `s`.
pub open spec fn evicted_by_age(s: Seq<FileRecord>, now: int, policy: EvictPolicy) -> Seq<
    FileRecord,
> {
    s.filter(is_expired(policy, now))
}

/// The files of `s` that are not too old, oldest first.
pub open spec fn fresh_oldest_first(s: Seq<FileRecord>, now: int, policy: EvictPolicy) -> Seq<
    FileRecord,
> {
    oldest_first(s.filter(is_fresh(policy, now)))
}

/// How many of the oldest files that are not too old are evicted, for their
/// number and then for their size.
pub open spec fn evicted_count(fresh: Seq<FileRecord>, policy: EvictPolicy) -> int {
    let by_count = excess_files(policy, fresh.len());
    by_count + excess_bytes(policy, fresh.skip(by_count))
}

/// The files that `policy` evicts from `s` at `now`, in the order of eviction.
pub open spec fn evicted(s: Seq<FileRecord>, now: int, policy: EvictPolicy) -> Seq<FileRecord> {
    let fresh = fresh_oldest_first(s, now, policy);
    evicted_by_age(s, now, policy) + fresh.take(evicted_count(fresh, policy))
}

/// The files of `s` that `policy` leaves at `now`, oldest first.
pub open spec fn kept(s: Seq<FileRecord>, now: int, policy: EvictPolicy) -> Seq<FileRecord> {
    let fresh = fresh_oldest_first(s, now, policy);
    fresh.skip(evicted_count(fresh, policy))
}

/// No more files are evicted for their size than there are.
pub proof fn lemma_excess_prefix(s: Seq<FileRecord>, max_bytes: int)
    ensures
        0 <= excess_prefix(s, max_bytes) <= s.len(),
    decreases s.len(),
{
    if s.len() > 0 && total_len(s) > max_bytes {
        lemma_excess_prefix(s.drop_first(), max_bytes);
    }
}

/// Files have no negative size, and so neither have lists of files.
proof fn lemma_total_len_nonnegative(entries: Seq<FileEntry>, from: int)
    requires
        0 <= from <= entries.len(),
    ensures
        total_len(records(entries).skip(from)) >= 0,
    decreases entries.len() - from,
{
    if from < entries.len() {
        lemma_total_len_nonnegative(entries, from + 1);
        lemma_total_len_skip(records(entries), from);
    }
}

proof fn lemma_total_len_skip(s: Seq<FileRecord>, from: int)
    requires
        0 <= from < s.len(),
    ensures
        s.skip(from).drop_first() == s.skip(from + 1),
        total_len(s.skip(from)) == s[from].len + total_len(s.skip(from + 1)),
{
    assert(s.skip(from).drop_first() =~= s.skip(from + 1));
}

/// Adds up the sizes of `entries` from position `from` on.
fn sum_of_lens(entries: &Vec<FileEntry>, from: usize) -> (r: u128)
    requires
        from <= entries@.len(),
    ensures
        r == total_len(records(entries@).skip(from as int)),
{
    let ghost all = records(entries@);
    let mut total: u128 = 0;
    let n: usize = entries.len();
    let mut i: usize = n;
    assert(all.skip(i as int) =~= seq![]);
    while i > from
        invariant
            all == records(entries@),
            from <= i <= n == entries@.len(),
            total == total_len(all.skip(i as int)),
            total <= (n - i) * u64::MAX,
        decreases i,
    {
        let ghost rest: int = n - i;
        proof {
            lemma_total_len_skip(all, i - 1);
            assert((rest + 1) * u64::MAX == rest * u64::MAX + u64::MAX) by (nonlinear_arith);
            assert((rest + 1) * u64::MAX <= u128::MAX) by (nonlinear_arith)
                requires
                    0 <= rest < u64::MAX,
            ;
        }
        i = i - 1;
        total = total + entries[i].len as u128;
    }
    total
}

/// How many of the files from position `from` on have to go until the total
/// size of those behind them is at most `max_bytes`.
fn count_excess_bytes(entries: &Vec<FileEntry>, from: usize, max_bytes: u64) -> (r: usize)
    requires
        from <= entries@.len(),
    ensures
        r == excess_prefix(records(entries@).skip(from as int), max_bytes as int),
        from + r <= entries@.len(),
{
    let ghost all = records(entries@);
    let mut total: u128 = sum_of_lens(entries, from);
    let mut i: usize = from;
    while i < entries.len() && total > max_bytes as u128
        invariant
            all == records(entries@),
            from <= i <= entries@.len(),
            total == total_len(all.skip(i as int)),
            excess_prefix(all.skip(from as int), max_bytes as int) == i - from + excess_prefix(
                all.skip(i as int),
                max_bytes as int,
            ),
        decreases entries@.len() - i,
    {
        proof {
            lemma_total_len_skip(all, i as int);
            lemma_total_len_nonnegative(entries@, i + 1);
        }
        total = total - entries[i].len as u128;
        i = i + 1;
    }
    i - from
}

/// Parts `entries` by the age limit of `policy`: the paths of those that have
/// reached it at `now`, and those that have not, both in order.
fn split_by_age(entries: Vec<FileEntry>, now: Timestamp, policy: &EvictPolicy) -> (r: (
    Vec<PosixPath>,
    Vec<FileEntry>,
))
    ensures
        path_bytes(r.0@) == record_paths(evicted_by_age(records(entries@), now@, *policy)),
        records(r.1@) == records(entries@).filter(is_fresh(*policy, now@)),
{
    let ghost all = records(entries@);
    let ghost old_test = is_expired(*policy, now@);
    let ghost new_test = is_fresh(*policy, now@);
    let mut marked: Vec<PosixPath> = Vec::new();
    let mut survivors: Vec<FileEntry> = Vec::new();
    for entry in it: entries
        invariant
            all == records(it.seq()),
            old_test == is_expired(*policy, now@),
            new_test == is_fresh(*policy, now@),
            path_bytes(marked@) == record_paths(all.take(it.index()).filter(old_test)),
            records(survivors@) == all.take(it.index()).filter(new_test),
    {
        let ghost front = all.take(it.index());
        let ghost next = all.take(it.index() + 1);
        let ghost old_marked = marked@;
        let ghost old_survivors = survivors@;
        proof {
            assert(next =~= front.push(entry@));
            front.lemma_filter_push(entry@, old_test);
            front.lemma_filter_push(entry@, new_test);
        }
        let expired = match policy.max_age {
            Some(max_age) => now.duration_since(&entry.modified).at_least(&max_age),
            None => false,
        };
        if expired {
            marked.push(entry.path);
            assert(path_bytes(marked@) =~= path_bytes(old_marked).push(entry.path@));
            assert(record_paths(next.filter(old_test)) =~= record_paths(
                front.filter(old_test),
            ).push(entry@.path));
        } else {
            survivors.push(entry);
            assert(records(survivors@) =~= records(old_survivors).push(entry@));
        }
    }
    assert(all.take(all.len() as int) =~= all);
    (marked, survivors)
}

/// Selects the files of `entries` that `policy` evicts at `now`: first those
/// that are too old, in the order of `entries`, then the oldest of the rest
/// until their number and then their total size is within the limits.
pub fn build_eviction_report(
    entries: Vec<FileEntry>,
    now: Timestamp,
    policy: &EvictPolicy,
) -> (report: EvictionReport)
    ensures
        report@ == record_paths(evicted(records(entries@), now@, *policy)),
{
    let ghost all = records(entries@);
    let (mut marked, mut fresh) = split_by_age(entries, now, policy);
    sort_entries_oldest_first(&mut fresh);
    let ghost by_age = marked@;
    let ghost sorted = records(fresh@);
    let by_count: usize = match policy.max_files {
        Some(max_files) => if fresh.len() > max_files {
            fresh.len() - max_files
        } else {
            0
        },
        None => 0,
    };
    let by_bytes: usize = match policy.max_bytes {
        Some(max_bytes) => count_excess_bytes(&fresh, by_count, max_bytes),
        None => 0,
    };
    let count: usize = by_count + by_bytes;
    assert(count == evicted_count(sorted, *policy));
    let mut i: usize = 0;
    while i < count
        invariant
            i <= count <= fresh@.len(),
            sorted == records(fresh@),
            path_bytes(marked@) == path_bytes(by_age) + record_paths(sorted.take(i as int)),
        decreases count - i,
    {
        let ghost old_marked = marked@;
        marked.push(fresh[i].path.clone());
        i = i + 1;
        assert(path_bytes(marked@) =~= path_bytes(old_marked).push(sorted[i - 1].path));
        assert(record_paths(sorted.take(i as int)) =~= record_paths(sorted.take(i - 1)).push(
            sorted[i - 1].path,
        ));
        assert(path_bytes(marked@) =~= path_bytes(by_age) + record_paths(sorted.take(i as int)));
    }
    assert(path_bytes(marked@) =~= record_paths(evicted(all, now@, *policy)));
    EvictionReport { marked_for_eviction: marked }
}

}
