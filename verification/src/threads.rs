//! The ids by which the threads of a process tell their directories apart.
use vstd::prelude::*;

verus! {

/// The supply of thread ids of a process, which are handed out from 1 on.
#[derive(Debug)]
pub struct ThreadGroupIds {
    next: u64,
}

impl View for ThreadGroupIds {
    type V = u64;

    /// The id that is handed out next.
    closed spec fn view(&self) -> u64 {
        self.next
    }
}

/// The id behind `id`; the last is followed by 0.
pub open spec fn following_id(id: u64) -> u64 {
    if id == u64::MAX {
        0
    } else {
        (id + 1) as u64
    }
}

/// The id of a thread whose own note of it is `slot` when `next` is handed out
/// next.
pub open spec fn id_of_thread(slot: Option<u64>, next: u64) -> u64 {
    match slot {
        Some(id) => id,
        None => next,
    }
}

/// What is handed out next after the thread asked for its id.
pub open spec fn next_after(slot: Option<u64>, next: u64) -> u64 {
    match slot {
        Some(_) => next,
        None => following_id(next),
    }
}

impl ThreadGroupIds {
    /// A supply from which nothing was handed out yet.
    pub fn new() -> (r: ThreadGroupIds)
        ensures
            r@ == 1,
    {
        ThreadGroupIds { next: 1 }
    }
}

/// The id of the current thread: the one in its own `slot` or, the first time, a
/// new one, which is noted there.
pub fn current_thread_cache_group_id(slot: &mut Option<u64>, ids: &mut ThreadGroupIds) -> (id: u64)
    ensures
        id == id_of_thread(*old(slot), old(ids)@),
        *old(slot) matches Some(noted) ==> id == noted && final(ids)@ == old(ids)@,
        *old(slot) is None ==> id == old(ids)@,
        *old(slot) is None && old(ids)@ < u64::MAX ==> final(ids)@ == old(ids)@ + 1,
        *old(slot) is None && old(ids)@ == u64::MAX ==> final(ids)@ == 0,
        *final(slot) == Some(id),
        final(ids)@ == next_after(*old(slot), old(ids)@),
{
    if let Some(id) = *slot {
        return id;
    }
    let id: u64 = ids.next;
    ids.next = id.wrapping_add(1);
    *slot = Some(id);
    id
}

/// A thread that asks again gets the same id, and no id is used up.
pub proof fn thread_id_is_stable(slot: Option<u64>, next: u64, later: u64)
    ensures
        ({
            let id = id_of_thread(slot, next);
            id_of_thread(Some(id), later) == id && next_after(Some(id), later) == later
        }),
{
}

/// The ids that the threads of a process have noted, by thread, and the one that
/// is handed out next.
pub struct Registry {
    /// The ids in the slots of the threads that have asked.
    pub noted: Map<int, u64>,
    /// The id that is handed out next.
    pub next: u64,
}

impl Registry {
    /// The registry of a process in which no thread has asked yet.
    pub open spec fn start() -> Registry {
        Registry { noted: Map::empty(), next: 1 }
    }

    /// The slot of a thread.
    pub open spec fn slot(self, thread: int) -> Option<u64> {
        if self.noted.contains_key(thread) {
            Some(self.noted[thread])
        } else {
            None
        }
    }

    /// The registry after a thread asked for its id.
    pub open spec fn asked_by(self, thread: int) -> Registry {
        Registry {
            noted: self.noted.insert(thread, id_of_thread(self.slot(thread), self.next)),
            next: next_after(self.slot(thread), self.next),
        }
    }

    /// Whether no two threads have noted the same id.
    pub open spec fn has_distinct_ids(self) -> bool {
        forall|t: int, u: int|
            #![trigger self.noted[t], self.noted[u]]
            self.noted.contains_key(t) && self.noted.contains_key(u) && t != u
                ==> self.noted[t] != self.noted[u]
    }

    /// Whether the ids noted were handed out before, and to one thread each.
    pub open spec fn is_consistent(self) -> bool {
        &&& self.next >= 1
        &&& forall|t: int| #[trigger]
            self.noted.contains_key(t) ==> 1 <= self.noted[t] < self.next
        &&& self.has_distinct_ids()
    }
}

/// No two threads get the same id, until the ids run out: whatever thread asks
/// next, every thread keeps the id it has, and all ids differ. The ids run out
/// when the last is handed out.
pub proof fn thread_ids_are_distinct(r: Registry, thread: int)
    requires
        r.is_consistent(),
    ensures
        Registry::start().is_consistent(),
        r.asked_by(thread).has_distinct_ids(),
        r.next < u64::MAX || r.noted.contains_key(thread) ==> r.asked_by(thread).is_consistent(),
        r.asked_by(thread).noted.contains_key(thread),
        forall|t: int| #[trigger]
            r.noted.contains_key(t) ==> r.asked_by(thread).noted.contains_key(t) && r.asked_by(
                thread,
            ).noted[t] == r.noted[t],
{
}

/// A thread that has noted an id keeps it; any other gets the id that is due, and
/// the one after it is due next, whichever of the two it is.
pub proof fn new_threads_get_the_id_that_is_due(noted: u64, due: u64)
    ensures
        id_of_thread(Some(noted), due) == noted,
        next_after(Some(noted), due) == due,
        id_of_thread(None, due) == due,
        due < u64::MAX ==> next_after(None, due) == due + 1,
        due == u64::MAX ==> next_after(None, due) == 0,
{
}

/// A thread that asks has its id noted; what the other threads have noted stays.
pub proof fn asking_notes_the_id_of_the_thread(r: Registry, thread: int, other: int)
    requires
        other != thread,
    ensures
        r.noted.contains_key(thread) ==> r.asked_by(thread).noted[thread] == r.noted[thread]
            && r.asked_by(thread).next == r.next,
        !r.noted.contains_key(thread) ==> r.asked_by(thread).noted[thread] == r.next,
        r.asked_by(thread).noted.contains_key(thread),
        r.asked_by(thread).noted.contains_key(other) <==> r.noted.contains_key(other),
        r.noted.contains_key(other) ==> r.asked_by(thread).noted[other] == r.noted[other],
{
}

}
