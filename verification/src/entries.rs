//! The files found under a cache directory, and the order in which they are
//! considered for eviction.
use crate::lists::reverse;
use crate::path::{path_order, Comparison, PosixPath};
use crate::path_order::{flip, path_order_is_antisymmetric, path_order_is_transitive};
use crate::time::Timestamp;
use vstd::prelude::*;

verus! {

/// A regular file: where it lies, when it was last modified, and its size in
/// bytes.
#[derive(Debug)]
pub struct FileEntry {
    /// The path of the file.
    pub path: PosixPath,
    /// When the file was last modified.
    pub modified: Timestamp,
    /// The size of the file in bytes.
    pub len: u64,
}

/// What a `FileEntry` says, as mathematical values.
pub struct FileRecord {
    /// The bytes of the path.
    pub path: Seq<u8>,
    /// The modification time, in nanoseconds since the epoch.
    pub modified: int,
    /// The size in bytes.
    pub len: int,
}

impl View for FileEntry {
    type V = FileRecord;

    open spec fn view(&self) -> FileRecord {
        FileRecord { path: self.path@, modified: self.modified@, len: self.len as int }
    }
}

impl Clone for FileEntry {
    fn clone(&self) -> (r: Self)
        ensures
            r@ == self@,
    {
        FileEntry { path: self.path.clone(), modified: self.modified, len: self.len }
    }
}

/// What the entries of a list say, in order.
pub open spec fn records(entries: Seq<FileEntry>) -> Seq<FileRecord> {
    Seq::new(entries.len(), |i: int| entries[i]@)
}

/// The order of eviction: by modification time, the older file first, and of two
/// files of the same time the one whose path comes first.
pub open spec fn entry_order(a: FileRecord, b: FileRecord) -> Comparison {
    if a.modified < b.modified {
        Comparison::Before
    } else if a.modified > b.modified {
        Comparison::After
    } else {
        path_order(a.path, b.path)
    }
}

/// Whether no record comes after one that stands behind it.
pub open spec fn is_oldest_first(s: Seq<FileRecord>) -> bool {
    forall|i: int, j: int|
        #![trigger s[i], s[j]]
        0 <= i <= j < s.len() ==> entry_order(s[i], s[j]) != Comparison::After
}

/// The test for records that neither come before nor after `e`.
pub open spec fn ties_with(e: FileRecord) -> spec_fn(FileRecord) -> bool {
    |x: FileRecord| entry_order(x, e) == Comparison::Same
}

/// Whether `t` holds the records of `s`, those that tie in the same order.
pub open spec fn is_stable_rearrangement(t: Seq<FileRecord>, s: Seq<FileRecord>) -> bool {
    forall|e: FileRecord| #[trigger] t.filter(ties_with(e)) == s.filter(ties_with(e))
}

/// `e` put into its place in a list that is oldest first, behind those it ties
/// with.
pub open spec fn insert_oldest_first(s: Seq<FileRecord>, e: FileRecord) -> Seq<FileRecord>
    decreases s.len(),
{
    if s.len() > 0 && entry_order(s.last(), e) == Comparison::After {
        insert_oldest_first(s.drop_last(), e).push(s.last())
    } else {
        s.push(e)
    }
}

/// The records of `s`, oldest first; those that tie keep their order.
pub open spec fn oldest_first(s: Seq<FileRecord>) -> Seq<FileRecord>
    decreases s.len(),
{
    if s.len() == 0 {
        s
    } else {
        insert_oldest_first(oldest_first(s.drop_last()), s.last())
    }
}

/// The order of eviction, seen from the other side, is turned round.
pub proof fn lemma_entry_order(a: FileRecord, b: FileRecord)
    ensures
        entry_order(b, a) == flip(entry_order(a, b)),
        entry_order(a, a) == Comparison::Same,
{
    path_order_is_antisymmetric(a.path, b.path);
    path_order_is_antisymmetric(a.path, a.path);
}

proof fn lemma_entry_order_transitive(a: FileRecord, b: FileRecord, c: FileRecord)
    requires
        entry_order(a, b) != Comparison::After,
        entry_order(b, c) != Comparison::After,
    ensures
        entry_order(a, c) != Comparison::After,
        entry_order(a, b) == Comparison::Before || entry_order(b, c) == Comparison::Before
            ==> entry_order(a, c) == Comparison::Before,
{
    if path_order(a.path, b.path) != Comparison::After && path_order(b.path, c.path)
        != Comparison::After {
        path_order_is_transitive(a.path, b.path, c.path);
    }
    if entry_order(a, c) == Comparison::Same {
        // Then `c` does not come after `a`, which closes a circle of ties.
        path_order_is_antisymmetric(a.path, c.path);
        path_order_is_antisymmetric(a.path, b.path);
        path_order_is_antisymmetric(b.path, c.path);
        if path_order(a.path, b.path) != Comparison::After && path_order(c.path, a.path)
            != Comparison::After {
            path_order_is_transitive(c.path, a.path, b.path);
        }
        if path_order(b.path, c.path) != Comparison::After && path_order(c.path, a.path)
            != Comparison::After {
            path_order_is_transitive(b.path, c.path, a.path);
        }
    }
}

/// Inserting into a list that is oldest first keeps it so, and puts the record
/// behind those it ties with.
proof fn lemma_insert_oldest_first(s: Seq<FileRecord>, e: FileRecord)
    requires
        is_oldest_first(s),
    ensures
        is_oldest_first(insert_oldest_first(s, e)),
        is_stable_rearrangement(insert_oldest_first(s, e), s.push(e)),
        forall|x: FileRecord| #[trigger]
            insert_oldest_first(s, e).contains(x) ==> s.contains(x) || x == e,
    decreases s.len(),
{
    let t = insert_oldest_first(s, e);
    lemma_entry_order(e, e);
    if s.len() > 0 && entry_order(s.last(), e) == Comparison::After {
        let front = s.drop_last();
        let last = s.last();
        let inner = insert_oldest_first(front, e);
        assert forall|i: int, j: int|
            #![trigger front[i], front[j]]
            0 <= i <= j < front.len() implies entry_order(front[i], front[j])
            != Comparison::After by {
            assert(front[i] == s[i] && front[j] == s[j]);
        }
        lemma_insert_oldest_first(front, e);
        lemma_entry_order(last, last);
        lemma_entry_order(e, last);
        assert forall|i: int, j: int|
            #![trigger t[i], t[j]]
            0 <= i <= j < t.len() implies entry_order(t[i], t[j]) != Comparison::After by {
            if j < inner.len() {
                assert(t[i] == inner[i] && t[j] == inner[j]);
            } else if i < inner.len() {
                assert(inner.contains(inner[i]));
                if front.contains(inner[i]) {
                    let k = choose|k: int| 0 <= k < front.len() && front[k] == inner[i];
                    assert(s[k] == inner[i] && s[s.len() - 1] == last);
                }
            }
        }
        assert forall|c: FileRecord| #[trigger]
            t.filter(ties_with(c)) == s.push(e).filter(ties_with(c)) by {
            let p = ties_with(c);
            assert(inner.filter(p) == front.push(e).filter(p));
            inner.lemma_filter_push(last, p);
            front.lemma_filter_push(e, p);
            front.lemma_filter_push(last, p);
            s.lemma_filter_push(e, p);
            assert(s =~= front.push(last));
            if p(last) && p(e) {
                lemma_entry_order(e, c);
                lemma_entry_order(last, c);
                lemma_entry_order_transitive(last, c, e);
            }
        }
        assert forall|x: FileRecord| #[trigger] t.contains(x) implies s.contains(x) || x == e by {
            let k = choose|k: int| 0 <= k < t.len() && t[k] == x;
            if k < inner.len() {
                assert(inner[k] == x);
                assert(inner.contains(x));
                if front.contains(x) {
                    let m = choose|m: int| 0 <= m < front.len() && front[m] == x;
                    assert(s[m] == x);
                }
            } else {
                assert(s[s.len() - 1] == x);
            }
        }
    } else {
        assert forall|i: int, j: int|
            #![trigger t[i], t[j]]
            0 <= i <= j < t.len() implies entry_order(t[i], t[j]) != Comparison::After by {
            if j == s.len() && i < j {
                assert(entry_order(s[i], s[s.len() - 1]) != Comparison::After);
                lemma_entry_order_transitive(s[i], s.last(), e);
            }
        }
        assert forall|x: FileRecord| #[trigger] t.contains(x) implies s.contains(x) || x == e by {
            let k = choose|k: int| 0 <= k < t.len() && t[k] == x;
            if k < s.len() {
                assert(s[k] == x);
            }
        }
    }
}

/// `oldest_first` gives a list that is oldest first and holds the same records,
/// those that tie in the same order.
pub proof fn oldest_first_is_sorted_and_stable(s: Seq<FileRecord>)
    ensures
        is_oldest_first(oldest_first(s)),
        is_stable_rearrangement(oldest_first(s), s),
    decreases s.len(),
{
    if s.len() > 0 {
        let front = s.drop_last();
        oldest_first_is_sorted_and_stable(front);
        lemma_insert_oldest_first(oldest_first(front), s.last());
        assert forall|c: FileRecord| #[trigger]
            oldest_first(s).filter(ties_with(c)) == s.filter(ties_with(c)) by {
            let p = ties_with(c);
            assert(oldest_first(front).filter(p) == front.filter(p));
            oldest_first(front).lemma_filter_push(s.last(), p);
            front.lemma_filter_push(s.last(), p);
            assert(s =~= front.push(s.last()));
        }
    }
}

/// A record of one of two rearrangements ties with a record of the other.
proof fn lemma_tie_in_rearrangement(t: Seq<FileRecord>, u: Seq<FileRecord>, i: int) -> (k: int)
    requires
        is_stable_rearrangement(t, u),
        0 <= i < t.len(),
    ensures
        0 <= k < u.len(),
        u[k] == t[i],
{
    let p = ties_with(t[i]);
    lemma_entry_order(t[i], t[i]);
    assert(t.filter(p) == u.filter(p));
    t.lemma_filter_contains(p, i);
    let f = u.filter(p);
    let m = choose|m: int| 0 <= m < f.len() && f[m] == t[i];
    u.lemma_filter_contains_rev(p, f[m]);
    choose|k: int| 0 <= k < u.len() && u[k] == t[i]
}

/// There is only one way to put records oldest first while those that tie keep
/// their order.
pub proof fn sorted_rearrangement_is_unique(t: Seq<FileRecord>, u: Seq<FileRecord>)
    requires
        is_oldest_first(t),
        is_oldest_first(u),
        is_stable_rearrangement(t, u),
    ensures
        t == u,
    decreases t.len(),
{
    if t.len() == 0 {
        if u.len() > 0 {
            let k = lemma_tie_in_rearrangement(u, t, 0);
        }
        assert(t =~= u);
    } else if u.len() == 0 {
        let k = lemma_tie_in_rearrangement(t, u, 0);
    } else {
        let x = t.last();
        let y = u.last();
        let k = lemma_tie_in_rearrangement(t, u, t.len() - 1);
        let m = lemma_tie_in_rearrangement(u, t, u.len() - 1);
        assert(entry_order(u[k], u[u.len() - 1]) != Comparison::After);
        assert(entry_order(t[m], t[t.len() - 1]) != Comparison::After);
        lemma_entry_order(x, y);
        lemma_entry_order(x, x);
        assert(entry_order(x, y) == Comparison::Same);
        let t0 = t.drop_last();
        let u0 = u.drop_last();
        assert(t =~= t0.push(x));
        assert(u =~= u0.push(y));
        assert(x == y) by {
            let p = ties_with(x);
            t0.lemma_filter_push(x, p);
            u0.lemma_filter_push(y, p);
            assert(t.filter(p) == u.filter(p));
            assert(t0.filter(p).push(x).last() == u0.filter(p).push(y).last());
        }
        assert forall|c: FileRecord| #[trigger] t0.filter(ties_with(c)) == u0.filter(
            ties_with(c),
        ) by {
            let p = ties_with(c);
            t0.lemma_filter_push(x, p);
            u0.lemma_filter_push(x, p);
            assert(t.filter(p) == u.filter(p));
            if p(x) {
                assert(t0.filter(p) =~= t.filter(p).drop_last());
                assert(u0.filter(p) =~= u.filter(p).drop_last());
            }
        }
        assert forall|i: int, j: int|
            #![trigger t0[i], t0[j]]
            0 <= i <= j < t0.len() implies entry_order(t0[i], t0[j]) != Comparison::After by {
            assert(t0[i] == t[i] && t0[j] == t[j]);
        }
        assert forall|i: int, j: int|
            #![trigger u0[i], u0[j]]
            0 <= i <= j < u0.len() implies entry_order(u0[i], u0[j]) != Comparison::After by {
            assert(u0[i] == u[i] && u0[j] == u[j]);
        }
        sorted_rearrangement_is_unique(t0, u0);
    }
}

/// A list that is oldest first and a stable rearrangement of `s` is
/// `oldest_first(s)`.
pub proof fn lemma_is_oldest_first_of(t: Seq<FileRecord>, s: Seq<FileRecord>)
    requires
        is_oldest_first(t),
        is_stable_rearrangement(t, s),
    ensures
        t == oldest_first(s),
{
    oldest_first_is_sorted_and_stable(s);
    let u = oldest_first(s);
    assert forall|c: FileRecord| #[trigger] t.filter(ties_with(c)) == u.filter(ties_with(c)) by {
        assert(t.filter(ties_with(c)) == s.filter(ties_with(c)));
        assert(u.filter(ties_with(c)) == s.filter(ties_with(c)));
    }
    sorted_rearrangement_is_unique(t, u);
}

impl FileEntry {
    /// Compares two files by the order of eviction.
    pub fn compare(&self, other: &FileEntry) -> (r: Comparison)
        ensures
            r == entry_order(self@, other@),
    {
        if self.modified.is_before(&other.modified) {
            Comparison::Before
        } else if other.modified.is_before(&self.modified) {
            Comparison::After
        } else {
            self.path.compare(&other.path)
        }
    }
}

/// What is left of two lists, followed by what was already merged, holds each
/// group of ties in the order of the two lists.
spec fn merge_keeps_ties(
    left: Seq<FileRecord>,
    right: Seq<FileRecord>,
    merged: Seq<FileRecord>,
    whole: Seq<FileRecord>,
) -> bool {
    forall|e: FileRecord| #[trigger]
        whole.filter(ties_with(e)) == left.filter(ties_with(e)) + right.filter(ties_with(e))
            + merged.filter(ties_with(e))
}

/// Whether no record of `s` comes after a record of `merged`.
spec fn precedes(s: Seq<FileRecord>, merged: Seq<FileRecord>) -> bool {
    forall|i: int, j: int|
        #![trigger s[i], merged[j]]
        0 <= i < s.len() && 0 <= j < merged.len() ==> entry_order(s[i], merged[j])
            != Comparison::After
}

/// The reversed records of a list that was built back to front.
spec fn reversed_records(v: Seq<FileEntry>) -> Seq<FileRecord> {
    records(v).reverse()
}

/// Taking the last record of `left`, which comes after all of `right`, keeps
/// the ties.
proof fn lemma_take_left(
    left: Seq<FileRecord>,
    right: Seq<FileRecord>,
    merged: Seq<FileRecord>,
    whole: Seq<FileRecord>,
)
    requires
        left.len() > 0,
        is_oldest_first(left),
        is_oldest_first(right),
        is_oldest_first(merged),
        precedes(left, merged),
        precedes(right, merged),
        merge_keeps_ties(left, right, merged, whole),
        right.len() > 0 ==> entry_order(left.last(), right.last()) == Comparison::After,
    ensures
        ({
            let next = seq![left.last()] + merged;
            &&& is_oldest_first(left.drop_last())
            &&& is_oldest_first(next)
            &&& precedes(left.drop_last(), next)
            &&& precedes(right, next)
            &&& merge_keeps_ties(left.drop_last(), right, next, whole)
        }),
{
    let x = left.last();
    let front = left.drop_last();
    let next = seq![x] + merged;
    lemma_entry_order(x, x);
    assert forall|i: int| #![trigger right[i]] 0 <= i < right.len() implies entry_order(right[i], x)
        == Comparison::Before by {
        let last = right.len() - 1;
        assert(entry_order(right[i], right[last]) != Comparison::After);
        lemma_entry_order(right[last], x);
        lemma_entry_order_transitive(right[i], right[last], x);
    }
    lemma_prepend(left, x, left.len() - 1, merged);
    assert forall|i: int, j: int|
        #![trigger front[i], next[j]]
        0 <= i < front.len() && 0 <= j < next.len() implies entry_order(front[i], next[j])
        != Comparison::After by {
        assert(front[i] == left[i]);
        if j > 0 {
            assert(next[j] == merged[j - 1]);
        } else {
            assert(entry_order(left[i], left[left.len() - 1]) != Comparison::After);
        }
    }
    assert forall|i: int, j: int|
        #![trigger right[i], next[j]]
        0 <= i < right.len() && 0 <= j < next.len() implies entry_order(right[i], next[j])
        != Comparison::After by {
        if j > 0 {
            assert(next[j] == merged[j - 1]);
        }
    }
    assert forall|e: FileRecord| #[trigger] whole.filter(ties_with(e)) == front.filter(
        ties_with(e),
    ) + right.filter(ties_with(e)) + next.filter(ties_with(e)) by {
        let p = ties_with(e);
        assert(left =~= front.push(x));
        front.lemma_filter_push(x, p);
        Seq::filter_distributes_over_add(seq![x], merged, p);
        lemma_filter_one(x, p);
        if p(x) {
            assert forall|i: int| 0 <= i < right.len() implies !p(#[trigger] right[i]) by {
                if p(right[i]) {
                    lemma_entry_order(right[i], e);
                    lemma_entry_order(right[i], x);
                    lemma_entry_order_transitive(x, e, right[i]);
                }
            }
            right.lemma_all_neg_filter_empty(p);
        }
        assert(whole.filter(p) =~= front.filter(p) + right.filter(p) + next.filter(p));
    }
    lemma_drop_last_sorted(left);
}

/// Taking the last record of `right`, which no record of `left` comes after,
/// keeps the ties.
proof fn lemma_take_right(
    left: Seq<FileRecord>,
    right: Seq<FileRecord>,
    merged: Seq<FileRecord>,
    whole: Seq<FileRecord>,
)
    requires
        right.len() > 0,
        is_oldest_first(left),
        is_oldest_first(right),
        is_oldest_first(merged),
        precedes(left, merged),
        precedes(right, merged),
        merge_keeps_ties(left, right, merged, whole),
        left.len() > 0 ==> entry_order(left.last(), right.last()) != Comparison::After,
    ensures
        ({
            let next = seq![right.last()] + merged;
            &&& is_oldest_first(right.drop_last())
            &&& is_oldest_first(next)
            &&& precedes(left, next)
            &&& precedes(right.drop_last(), next)
            &&& merge_keeps_ties(left, right.drop_last(), next, whole)
        }),
{
    let x = right.last();
    let front = right.drop_last();
    let next = seq![x] + merged;
    lemma_prepend(right, x, right.len() - 1, merged);
    assert forall|i: int, j: int|
        #![trigger front[i], next[j]]
        0 <= i < front.len() && 0 <= j < next.len() implies entry_order(front[i], next[j])
        != Comparison::After by {
        assert(front[i] == right[i]);
        if j > 0 {
            assert(next[j] == merged[j - 1]);
        } else {
            assert(entry_order(right[i], right[right.len() - 1]) != Comparison::After);
        }
    }
    assert forall|i: int, j: int|
        #![trigger left[i], next[j]]
        0 <= i < left.len() && 0 <= j < next.len() implies entry_order(left[i], next[j])
        != Comparison::After by {
        if j > 0 {
            assert(next[j] == merged[j - 1]);
        } else {
            assert(entry_order(left[i], left[left.len() - 1]) != Comparison::After);
            lemma_entry_order_transitive(left[i], left.last(), x);
        }
    }
    assert forall|e: FileRecord| #[trigger] whole.filter(ties_with(e)) == left.filter(
        ties_with(e),
    ) + front.filter(ties_with(e)) + next.filter(ties_with(e)) by {
        let p = ties_with(e);
        assert(right =~= front.push(x));
        front.lemma_filter_push(x, p);
        Seq::filter_distributes_over_add(seq![x], merged, p);
        lemma_filter_one(x, p);
        assert(whole.filter(p) =~= left.filter(p) + front.filter(p) + next.filter(p));
    }
    lemma_drop_last_sorted(right);
}

proof fn lemma_filter_one(x: FileRecord, p: spec_fn(FileRecord) -> bool)
    ensures
        seq![x].filter(p) == if p(x) {
            seq![x]
        } else {
            seq![]
        },
{
    let none = Seq::<FileRecord>::empty();
    none.lemma_filter_push(x, p);
    none.lemma_filter_len(p);
    assert(seq![x] =~= none.push(x));
    assert(none.filter(p) =~= none);
}

proof fn lemma_drop_last_sorted(s: Seq<FileRecord>)
    requires
        s.len() > 0,
        is_oldest_first(s),
    ensures
        is_oldest_first(s.drop_last()),
{
    let front = s.drop_last();
    assert forall|i: int, j: int|
        #![trigger front[i], front[j]]
        0 <= i <= j < front.len() implies entry_order(front[i], front[j])
        != Comparison::After by {
        assert(front[i] == s[i] && front[j] == s[j]);
    }
}

/// A record of a list that precedes `merged` may be put before `merged`.
proof fn lemma_prepend(s: Seq<FileRecord>, x: FileRecord, at: int, merged: Seq<FileRecord>)
    requires
        0 <= at < s.len(),
        s[at] == x,
        precedes(s, merged),
        is_oldest_first(merged),
    ensures
        is_oldest_first(seq![x] + merged),
{
    let next = seq![x] + merged;
    lemma_entry_order(x, x);
    assert forall|i: int, j: int|
        #![trigger next[i], next[j]]
        0 <= i <= j < next.len() implies entry_order(next[i], next[j]) != Comparison::After by {
        if i > 0 {
            assert(next[i] == merged[i - 1] && next[j] == merged[j - 1]);
        } else if j > 0 {
            assert(next[j] == merged[j - 1]);
            assert(entry_order(s[at], merged[j - 1]) != Comparison::After);
        }
    }
}

/// Merges two lists that are oldest first; of two records that tie, that of
/// `left` comes first.
fn merge(left: Vec<FileEntry>, right: Vec<FileEntry>) -> (r: Vec<FileEntry>)
    requires
        is_oldest_first(records(left@)),
        is_oldest_first(records(right@)),
    ensures
        records(r@) == oldest_first(records(left@) + records(right@)),
{
    let ghost whole = records(left@) + records(right@);
    let mut left = left;
    let mut right = right;
    let mut back: Vec<FileEntry> = Vec::new();
    let ghost mut merged: Seq<FileRecord> = seq![];
    proof {
        assert forall|e: FileRecord| #[trigger] whole.filter(ties_with(e)) == records(
            left@,
        ).filter(ties_with(e)) + records(right@).filter(ties_with(e)) + merged.filter(
            ties_with(e),
        ) by {
            Seq::filter_distributes_over_add(records(left@), records(right@), ties_with(e));
            merged.lemma_filter_len(ties_with(e));
            assert(merged.filter(ties_with(e)) =~= seq![]);
        }
        assert(reversed_records(back@) =~= merged);
    }
    while left.len() > 0 || right.len() > 0
        invariant
            is_oldest_first(records(left@)),
            is_oldest_first(records(right@)),
            is_oldest_first(merged),
            precedes(records(left@), merged),
            precedes(records(right@), merged),
            merge_keeps_ties(records(left@), records(right@), merged, whole),
            reversed_records(back@) == merged,
        decreases left@.len() + right@.len(),
    {
        let from_left = if left.len() == 0 {
            false
        } else if right.len() == 0 {
            true
        } else {
            let order = left[left.len() - 1].compare(&right[right.len() - 1]);
            order == Comparison::After
        };
        let ghost old_left = records(left@);
        let ghost old_right = records(right@);
        let ghost old_back = back@;
        if from_left {
            proof {
                lemma_take_left(old_left, old_right, merged, whole);
            }
            if let Some(entry) = left.pop() {
                proof {
                    merged = seq![entry@] + merged;
                    assert(records(left@) =~= old_left.drop_last());
                }
                back.push(entry);
                assert(reversed_records(back@) =~= merged);
            }
        } else {
            proof {
                lemma_take_right(old_left, old_right, merged, whole);
            }
            if let Some(entry) = right.pop() {
                proof {
                    merged = seq![entry@] + merged;
                    assert(records(right@) =~= old_right.drop_last());
                }
                back.push(entry);
                assert(reversed_records(back@) =~= merged);
            }
        }
    }
    proof {
        assert forall|e: FileRecord| #[trigger]
            merged.filter(ties_with(e)) == whole.filter(ties_with(e)) by {
            assert(whole.filter(ties_with(e)) == records(left@).filter(ties_with(e)) + records(
                right@,
            ).filter(ties_with(e)) + merged.filter(ties_with(e)));
            records(left@).lemma_filter_len(ties_with(e));
            records(right@).lemma_filter_len(ties_with(e));
            assert(whole.filter(ties_with(e)) =~= merged.filter(ties_with(e)));
        }
        lemma_is_oldest_first_of(merged, whole);
    }
    let r = reverse(back);
    assert(records(r@) =~= reversed_records(back@));
    r
}

/// Sorting the two halves first does not change the outcome.
proof fn lemma_sort_halves(a: Seq<FileRecord>, b: Seq<FileRecord>)
    ensures
        oldest_first(oldest_first(a) + oldest_first(b)) == oldest_first(a + b),
{
    let sa = oldest_first(a);
    let sb = oldest_first(b);
    oldest_first_is_sorted_and_stable(a);
    oldest_first_is_sorted_and_stable(b);
    oldest_first_is_sorted_and_stable(sa + sb);
    let t = oldest_first(sa + sb);
    assert forall|e: FileRecord| #[trigger]
        t.filter(ties_with(e)) == (a + b).filter(ties_with(e)) by {
        let p = ties_with(e);
        assert(t.filter(p) == (sa + sb).filter(p));
        assert(sa.filter(p) == a.filter(p));
        assert(sb.filter(p) == b.filter(p));
        Seq::filter_distributes_over_add(sa, sb, p);
        Seq::filter_distributes_over_add(a, b, p);
    }
    lemma_is_oldest_first_of(t, a + b);
}

/// Merge sort.
fn sorted(entries: Vec<FileEntry>) -> (r: Vec<FileEntry>)
    ensures
        records(r@) == oldest_first(records(entries@)),
    decreases entries@.len(),
{
    if entries.len() <= 1 {
        proof {
            let s = records(entries@);
            if s.len() == 1 {
                assert(oldest_first(s.drop_last()) =~= seq![]);
                assert(oldest_first(s) =~= s);
            }
        }
        return entries;
    }
    let ghost whole = records(entries@);
    let mid: usize = entries.len() / 2;
    let mut left = entries;
    let right = left.split_off(mid);
    assert(records(left@) + records(right@) =~= whole);
    proof {
        oldest_first_is_sorted_and_stable(records(left@));
        oldest_first_is_sorted_and_stable(records(right@));
        lemma_sort_halves(records(left@), records(right@));
    }
    let left = sorted(left);
    let right = sorted(right);
    merge(left, right)
}

/// Puts `entries` oldest first: by modification time, then by path.
pub fn sort_entries_oldest_first(entries: &mut Vec<FileEntry>)
    ensures
        records(final(entries)@) == oldest_first(records(old(entries)@)),
{
    let mut taken: Vec<FileEntry> = Vec::new();
    std::mem::swap(entries, &mut taken);
    *entries = sorted(taken);
}

}
