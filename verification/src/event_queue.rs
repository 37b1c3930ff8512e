//! A stable event queue: earliest time first, insertion order among equal
//! times, with handle-based cancellation that is lazy in storage but
//! immediate in the live count.
use vstd::prelude::*;

use std::collections::HashMap;

use crate::error::SimError;
use crate::time::SimTime;

verus! {

broadcast use vstd::std_specs::hash::group_hash_axioms;

/// Identifies one scheduled event. A handle stops being live once its event
/// has been cancelled or popped.
#[derive(Clone, Copy, Debug, PartialEq, Eq, Hash)]
pub struct EventHandle {
    id: u64,
    generation: u32,
}

impl View for EventHandle {
    type V = (u64, u32);

    closed spec fn view(&self) -> (u64, u32) {
        (self.id, self.generation)
    }
}

impl EventHandle {
    /// The event's identifier.
    pub fn id(self) -> (r: u64)
        ensures
            r == self@.0,
    {
        self.id
    }

    /// The generation the handle was issued with.
    pub fn generation(self) -> (r: u32)
        ensures
            r == self@.1,
    {
        self.generation
    }
}

/// The order key of an event: its time, then the order in which it was
/// scheduled.
#[derive(Clone, Copy, Debug, PartialEq, Eq, PartialOrd, Ord)]
pub struct EventKey {
    pub at: SimTime,
    pub sequence: u64,
}

/// `a` comes strictly before `b`: an earlier time, or the same time and an
/// earlier sequence number.
pub open spec fn key_precedes(a: EventKey, b: EventKey) -> bool {
    a.at@ < b.at@ || (a.at@ == b.at@ && a.sequence < b.sequence)
}

/// Whether key `a` comes strictly before key `b`.
pub fn precedes(a: &EventKey, b: &EventKey) -> (r: bool)
    ensures
        r == key_precedes(*a, *b),
{
    let at_a = a.at.get();
    let at_b = b.at.get();
    at_a < at_b || (at_a == at_b && a.sequence < b.sequence)
}

/// An event taken from the queue, with the handle it was scheduled under.
#[derive(Debug)]
pub struct ScheduledEvent<T> {
    pub handle: EventHandle,
    pub key: EventKey,
    pub payload: T,
}

/// Priority queue of events.
///
/// Entries are stored in strictly decreasing key order, so the earliest
/// entry is the last one. Cancelling only forgets the handle in the live
/// table; the stored entry is skipped when it reaches the front.
#[derive(Debug)]
pub struct StableEventQueue<T> {
    entries: Vec<ScheduledEvent<T>>,
    live_generations: HashMap<u64, u32>,
    next_id: u64,
    next_sequence: u64,
}

impl<T> StableEventQueue<T> {
    /// The internal invariant.
    pub closed spec fn wf(self) -> bool {
        let s = self.entries@;
        &&& forall|i: int, j: int|
            0 <= i < j < s.len() ==> #[trigger] key_precedes(s[j].key, s[i].key)
        &&& forall|i: int|
            0 <= i < s.len() ==> (#[trigger] s[i]).handle@.0 < self.next_id
                && s[i].key.sequence < self.next_sequence && s[i].key.sequence == s[i].handle@.0
        &&& forall|i: int, j: int|
            0 <= i < s.len() && 0 <= j < s.len() && i != j ==> (#[trigger] s[i]).handle@.0
                != (#[trigger] s[j]).handle@.0
        &&& forall|id: u64| #[trigger]
            self.live_generations@.contains_key(id) ==> exists|i: int|
                0 <= i < s.len() && (#[trigger] s[i]).handle@ == (
                    id,
                    self.live_generations@[id],
                )
        &&& self.next_id == self.next_sequence
    }

    /// The position of the stored entry with identifier `id`.
    closed spec fn slot(self, id: u64) -> int {
        choose|i: int| 0 <= i < self.entries@.len() && self.entries@[i].handle@.0 == id
    }

    /// The live events, by identifier.
    pub closed spec fn pending(self) -> Map<u64, ScheduledEvent<T>> {
        Map::new(
            |id: u64| self.live_generations@.contains_key(id),
            |id: u64| self.entries@[self.slot(id)],
        )
    }

    /// How many entries are stored, cancelled ones included.
    pub closed spec fn stored_len(self) -> nat {
        self.entries@.len()
    }

    /// How many events have been scheduled so far; it is also the next
    /// identifier and the next sequence number.
    pub closed spec fn issued(self) -> u64 {
        self.next_id
    }

    proof fn lemma_slot(self, id: u64)
        requires
            self.wf(),
            self.live_generations@.contains_key(id),
        ensures
            0 <= self.slot(id) < self.entries@.len(),
            self.entries@[self.slot(id)].handle@ == (id, self.live_generations@[id]),
            forall|j: int|
                0 <= j < self.entries@.len() && self.entries@[j].handle@.0 == id ==> j
                    == self.slot(id),
    {
        let i = choose|i: int|
            0 <= i < self.entries@.len() && self.entries@[i].handle@ == (
                id,
                self.live_generations@[id],
            );
        assert(self.entries@[i].handle@.0 == id);
    }

    /// An empty queue.
    pub fn new() -> (q: Self)
        ensures
            q.wf(),
            q.pending() == Map::<u64, ScheduledEvent<T>>::empty(),
            q.stored_len() == 0,
            q.issued() == 0,
    {
        let q = StableEventQueue {
            entries: Vec::new(),
            live_generations: HashMap::new(),
            next_id: 0,
            next_sequence: 0,
        };
        assert(q.pending() =~= Map::<u64, ScheduledEvent<T>>::empty());
        q
    }

    /// How many events have been scheduled so far.
    pub fn issued_count(&self) -> (r: u64)
        ensures
            r == self.issued(),
    {
        self.next_id
    }

    /// The number of entries whose key comes after `key`; they are stored
    /// first.
    fn insertion_point(&self, key: &EventKey) -> (p: usize)
        requires
            self.wf(),
            forall|i: int|
                0 <= i < self.entries@.len() ==> #[trigger] self.entries@[i].key.sequence
                    < key.sequence,
        ensures
            p <= self.entries@.len(),
            forall|i: int| 0 <= i < p ==> key_precedes(*key, #[trigger] self.entries@[i].key),
            forall|i: int|
                p <= i < self.entries@.len() ==> key_precedes(
                    #[trigger] self.entries@[i].key,
                    *key,
                ),
    {
        let mut lo: usize = 0;
        let mut hi: usize = self.entries.len();
        while lo < hi
            invariant
                self.wf(),
                lo <= hi <= self.entries@.len(),
                forall|i: int|
                    0 <= i < self.entries@.len() ==> #[trigger] self.entries@[i].key.sequence
                        < key.sequence,
                forall|i: int| 0 <= i < lo ==> key_precedes(*key, #[trigger] self.entries@[i].key),
                forall|i: int|
                    hi <= i < self.entries@.len() ==> key_precedes(
                        #[trigger] self.entries@[i].key,
                        *key,
                    ),
            decreases hi - lo,
        {
            let mid = lo + (hi - lo) / 2;
            if precedes(key, &self.entries[mid].key) {
                assert forall|i: int| 0 <= i < mid + 1 implies key_precedes(
                    *key,
                    #[trigger] self.entries@[i].key,
                ) by {
                    if i < mid {
                        assert(key_precedes(self.entries@[mid as int].key, self.entries@[i].key));
                    }
                }
                lo = mid + 1;
            } else {
                assert forall|i: int| mid <= i < self.entries@.len() implies key_precedes(
                    #[trigger] self.entries@[i].key,
                    *key,
                ) by {
                    if i > mid {
                        assert(key_precedes(self.entries@[i].key, self.entries@[mid as int].key));
                    }
                }
                hi = mid;
            }
        }
        lo
    }

    /// Schedules `payload` at time `at` and returns its handle. The event
    /// gets the next identifier and the next sequence number, so among
    /// events at equal times it comes after every earlier-scheduled one.
    pub fn schedule(&mut self, at: SimTime, payload: T) -> (handle: EventHandle)
        requires
            old(self).wf(),
            old(self).issued() < u64::MAX,
        ensures
            final(self).wf(),
            handle@ == (old(self).issued(), 0u32),
            final(self).issued() == old(self).issued() + 1,
            final(self).stored_len() == old(self).stored_len() + 1,
            final(self).pending() == old(self).pending().insert(
                handle@.0,
                ScheduledEvent {
                    handle,
                    key: EventKey { at, sequence: old(self).issued() },
                    payload,
                },
            ),
    {
        let ghost old_q = *self;
        let handle = EventHandle { id: self.next_id, generation: 0 };
        let key = EventKey { at, sequence: self.next_sequence };
        let p = self.insertion_point(&key);
        self.next_id = self.next_id + 1;
        self.next_sequence = self.next_sequence + 1;
        self.live_generations.insert(handle.id, handle.generation);
        let ghost event = ScheduledEvent { handle, key, payload };
        self.entries.insert(p, ScheduledEvent { handle, key, payload });
        proof {
            let s = self.entries@;
            let o = old_q.entries@;
            assert(s == o.insert(p as int, event));
            assert forall|i: int, j: int| 0 <= i < j < s.len() implies #[trigger] key_precedes(
                s[j].key,
                s[i].key,
            ) by {
                if j < p {
                } else if j == p {
                    assert(key_precedes(key, o[i].key));
                } else if i < p {
                    assert(key_precedes(o[j - 1].key, key));
                    assert(key_precedes(key, o[i].key));
                } else if i == p {
                    assert(key_precedes(o[j - 1].key, key));
                } else {
                    assert(key_precedes(o[j - 1].key, o[i - 1].key));
                }
            }
            assert forall|i: int, j: int|
                0 <= i < s.len() && 0 <= j < s.len() && i != j implies (#[trigger] s[i]).handle@.0
                != (#[trigger] s[j]).handle@.0 by {
                if i < p && j > p {
                    assert(o[i].handle@.0 != o[j - 1].handle@.0);
                } else if i > p && j < p {
                    assert(o[i - 1].handle@.0 != o[j].handle@.0);
                } else if i > p && j > p {
                    assert(o[i - 1].handle@.0 != o[j - 1].handle@.0);
                } else if i == p && j < p {
                    assert(o[j].handle@.0 < old_q.next_id);
                } else if i == p && j > p {
                    assert(o[j - 1].handle@.0 < old_q.next_id);
                } else if j == p && i < p {
                    assert(o[i].handle@.0 < old_q.next_id);
                } else if j == p && i > p {
                    assert(o[i - 1].handle@.0 < old_q.next_id);
                }
            }
            assert forall|i: int| 0 <= i < s.len() implies (#[trigger] s[i]).handle@.0
                < self.next_id && s[i].key.sequence < self.next_sequence && s[i].key.sequence
                == s[i].handle@.0 by {
                if i < p {
                    assert(s[i] == o[i]);
                } else if i > p {
                    assert(s[i] == o[i - 1]);
                }
            }
            assert forall|id: u64| #[trigger]
                self.live_generations@.contains_key(id) implies exists|i: int|
                0 <= i < s.len() && (#[trigger] s[i]).handle@ == (
                    id,
                    self.live_generations@[id],
                ) by {
                if id == handle@.0 {
                    assert(s[p as int].handle@ == (id, self.live_generations@[id]));
                } else {
                    old_q.lemma_slot(id);
                    let k = old_q.slot(id);
                    if k < p {
                        assert(s[k].handle@ == (id, self.live_generations@[id]));
                    } else {
                        assert(s[k + 1].handle@ == (id, self.live_generations@[id]));
                    }
                }
            }
            assert(self.wf());
            let expected = old_q.pending().insert(handle@.0, event);
            assert forall|id: u64| #[trigger] self.pending().contains_key(id) implies self.pending()[id]
                == expected[id] by {
                self.lemma_slot(id);
                if id == handle@.0 {
                    assert(s[p as int].handle@.0 == id);
                } else {
                    old_q.lemma_slot(id);
                    let k = old_q.slot(id);
                    if k < p {
                        assert(s[k].handle@.0 == id);
                    } else {
                        assert(s[k + 1].handle@.0 == id);
                    }
                }
            }
            assert(self.pending() =~= expected);
        }
        handle
    }

    /// Whether the stored entry for `handle` is still live.
    fn is_live(&self, handle: EventHandle) -> (r: bool)
        ensures
            r == (self.live_generations@.contains_key(handle@.0)
                && self.live_generations@[handle@.0] == handle@.1),
    {
        match self.live_generations.get(&handle.id) {
            Some(generation) => *generation == handle.generation,
            None => false,
        }
    }

    /// Cancels the event of `handle`. A handle whose event was already
    /// cancelled or popped is stale and is refused. The stored entry stays
    /// until it reaches the front; only the live set changes.
    pub fn cancel(&mut self, handle: EventHandle) -> (r: Result<(), SimError>)
        requires
            old(self).wf(),
        ensures
            final(self).wf(),
            r is Ok <==> (old(self).pending().contains_key(handle@.0) && old(
                self,
            ).pending()[handle@.0].handle == handle),
            r is Ok ==> final(self).pending() == old(self).pending().remove(handle@.0),
            r is Err ==> final(self).pending() == old(self).pending(),
            r matches Err(e) ==> e == SimError::StaleEventHandle,
            final(self).stored_len() == old(self).stored_len(),
            final(self).issued() == old(self).issued(),
    {
        let ghost old_q = *self;
        proof {
            if old_q.live_generations@.contains_key(handle@.0) {
                old_q.lemma_slot(handle@.0);
                let e = old_q.entries@[old_q.slot(handle@.0)].handle;
                assert((e == handle) <==> (e@ == handle@));
            }
        }
        if self.is_live(handle) {
            self.live_generations.remove(&handle.id);
            proof {
                assert forall|id: u64| #[trigger]
                    self.live_generations@.contains_key(id) implies exists|i: int|
                    0 <= i < self.entries@.len() && (#[trigger] self.entries@[i]).handle@ == (
                        id,
                        self.live_generations@[id],
                    ) by {
                    old_q.lemma_slot(id);
                    assert(self.entries@[old_q.slot(id)].handle@ == (id, self.live_generations@[id]));
                }
                assert forall|id: u64| #[trigger]
                    self.pending().contains_key(id) implies self.pending()[id]
                    == old_q.pending().remove(handle@.0)[id] by {
                    old_q.lemma_slot(id);
                    self.lemma_slot(id);
                }
                assert(self.pending() =~= old_q.pending().remove(handle@.0));
            }
            Ok(())
        } else {
            Err(SimError::StaleEventHandle)
        }
    }

    /// Removes the last stored entry, which is not live.
    proof fn lemma_drop_dead_last(self, next: Self)
        requires
            self.wf(),
            self.entries@.len() > 0,
            !(self.live_generations@.contains_key(self.entries@.last().handle@.0)
                && self.live_generations@[self.entries@.last().handle@.0]
                == self.entries@.last().handle@.1),
            next.entries@ == self.entries@.drop_last(),
            next.live_generations@ == self.live_generations@,
            next.next_id == self.next_id,
            next.next_sequence == self.next_sequence,
        ensures
            next.wf(),
            next.pending() == self.pending(),
    {
        let n = self.entries@.len() - 1;
        assert forall|id: u64| #[trigger]
            next.live_generations@.contains_key(id) implies exists|i: int|
            0 <= i < next.entries@.len() && (#[trigger] next.entries@[i]).handle@ == (
                id,
                next.live_generations@[id],
            ) by {
            self.lemma_slot(id);
            let k = self.slot(id);
            if k == n {
                assert(false);
            }
            assert(next.entries@[k] == self.entries@[k]);
        }
        assert forall|id: u64| #[trigger] next.pending().contains_key(id) implies next.pending()[id]
            == self.pending()[id] by {
            self.lemma_slot(id);
            next.lemma_slot(id);
            assert(next.entries@[next.slot(id)] == self.entries@[next.slot(id)]);
        }
        assert(next.pending() =~= self.pending());
    }

    /// Takes the earliest live event: the one with the smallest key among
    /// the live events. Cancelled entries met on the way are discarded.
    /// `None` exactly when no event is live; every stored entry is then
    /// discarded.
    pub fn pop_next(&mut self) -> (r: Option<ScheduledEvent<T>>)
        requires
            old(self).wf(),
        ensures
            final(self).wf(),
            final(self).issued() == old(self).issued(),
            r is None <==> old(self).pending().is_empty(),
            r is None ==> final(self).pending() == old(self).pending() && final(self).stored_len()
                == 0,
            r matches Some(e) ==> {
                &&& old(self).pending().contains_key(e.handle@.0)
                &&& old(self).pending()[e.handle@.0] == e
                &&& forall|id: u64|
                    #[trigger] old(self).pending().contains_key(id) && id != e.handle@.0
                        ==> key_precedes(e.key, old(self).pending()[id].key)
                &&& final(self).pending() == old(self).pending().remove(e.handle@.0)
                &&& final(self).stored_len() < old(self).stored_len()
            },
    {
        let ghost start = *self;
        loop
            invariant
                start == *old(self),
                self.wf(),
                self.pending() == start.pending(),
                self.issued() == start.issued(),
                self.stored_len() <= start.stored_len(),
            decreases self.entries@.len(),
        {
            let ghost before = *self;
            if self.entries.len() == 0 {
                proof {
                    assert forall|id: u64| !#[trigger] self.live_generations@.contains_key(id) by {
                        if self.live_generations@.contains_key(id) {
                            self.lemma_slot(id);
                        }
                    }
                    assert(self.pending().dom() =~= Set::<u64>::empty());
                }
                return None;
            }
            let last = self.entries.len() - 1;
            let handle = self.entries[last].handle;
            if self.is_live(handle) {
                let entry = self.entries.pop().unwrap();
                self.live_generations.remove(&handle.id);
                proof {
                    let id = handle@.0;
                    before.lemma_slot(id);
                    assert(before.slot(id) == last);
                    assert(before.pending().contains_key(id));
                    assert forall|other: u64|
                        #[trigger] before.pending().contains_key(other) && other != id
                            implies key_precedes(entry.key, before.pending()[other].key) by {
                        before.lemma_slot(other);
                        assert(before.slot(other) != last);
                    }
                    assert forall|x: u64| #[trigger]
                        self.live_generations@.contains_key(x) implies exists|i: int|
                        0 <= i < self.entries@.len() && (#[trigger] self.entries@[i]).handle@ == (
                            x,
                            self.live_generations@[x],
                        ) by {
                        before.lemma_slot(x);
                        assert(before.slot(x) != last);
                        assert(self.entries@[before.slot(x)] == before.entries@[before.slot(x)]);
                    }
                    assert(self.wf());
                    assert forall|x: u64| #[trigger]
                        self.pending().contains_key(x) implies self.pending()[x]
                        == before.pending().remove(id)[x] by {
                        before.lemma_slot(x);
                        self.lemma_slot(x);
                        assert(self.entries@[self.slot(x)] == before.entries@[self.slot(x)]);
                    }
                    assert(self.pending() =~= before.pending().remove(id));
                }
                return Some(entry);
            }
            self.entries.pop();
            proof {
                before.lemma_drop_dead_last(*self);
            }
        }
    }

    /// The key of the earliest live event, discarding cancelled entries at
    /// the front. The live events are unchanged.
    pub fn peek_key(&mut self) -> (r: Option<EventKey>)
        requires
            old(self).wf(),
        ensures
            final(self).wf(),
            final(self).issued() == old(self).issued(),
            final(self).pending() == old(self).pending(),
            final(self).stored_len() <= old(self).stored_len(),
            r is None <==> old(self).pending().is_empty(),
            r matches Some(k) ==> exists|id: u64| #[trigger]
                old(self).pending().contains_key(id) && old(self).pending()[id].key == k
                    && forall|other: u64|
                    #[trigger] old(self).pending().contains_key(other) && other != id
                        ==> key_precedes(k, old(self).pending()[other].key),
    {
        let ghost start = *self;
        loop
            invariant
                start == *old(self),
                self.wf(),
                self.pending() == start.pending(),
                self.issued() == start.issued(),
                self.stored_len() <= start.stored_len(),
            decreases self.entries@.len(),
        {
            let ghost before = *self;
            if self.entries.len() == 0 {
                proof {
                    assert forall|id: u64| !#[trigger] self.live_generations@.contains_key(id) by {
                        if self.live_generations@.contains_key(id) {
                            self.lemma_slot(id);
                        }
                    }
                    assert(self.pending().dom() =~= Set::<u64>::empty());
                }
                return None;
            }
            let last = self.entries.len() - 1;
            let handle = self.entries[last].handle;
            if self.is_live(handle) {
                let key = self.entries[last].key;
                proof {
                    let id = handle@.0;
                    self.lemma_slot(id);
                    assert(self.slot(id) == last);
                    assert(self.pending().contains_key(id));
                    assert forall|other: u64|
                        #[trigger] self.pending().contains_key(other) && other != id
                            implies key_precedes(key, self.pending()[other].key) by {
                        self.lemma_slot(other);
                        assert(self.slot(other) != last);
                    }
                }
                return Some(key);
            }
            self.entries.pop();
            proof {
                before.lemma_drop_dead_last(*self);
            }
        }
    }

    /// The number of live events.
    pub fn live_len(&self) -> (r: usize)
        requires
            self.wf(),
        ensures
            r == self.pending().len(),
    {
        proof {
            assert(self.pending().dom() =~= self.live_generations@.dom());
        }
        self.live_generations.len()
    }

    /// The number of stored entries, cancelled ones included.
    pub fn heap_len(&self) -> (r: usize)
        ensures
            r == self.stored_len(),
    {
        self.entries.len()
    }

    /// Whether no event is live.
    pub fn is_empty(&self) -> (r: bool)
        ensures
            r == self.pending().is_empty(),
    {
        proof {
            assert(self.pending().dom() =~= self.live_generations@.dom());
        }
        self.live_generations.is_empty()
    }
}

impl<T> StableEventQueue<T> {
    /// Every live event was issued by this queue: its identifier is below
    /// the number of events issued, it is listed under its own identifier,
    /// its handle is of generation 0, and its sequence number is its
    /// identifier, so identifiers and sequence numbers both count the
    /// events in the order they were scheduled. There are finitely many
    /// live events.
    pub proof fn law_live_events_were_issued(self)
        requires
            self.wf(),
        ensures
            self.pending().dom().finite(),
            forall|id: u64| #[trigger]
                self.pending().contains_key(id) ==> id < self.issued()
                    && self.pending()[id].handle@.0 == id && self.pending()[id].key.sequence
                    == id,
    {
        assert forall|id: u64| #[trigger] self.pending().contains_key(id) implies id
            < self.issued() && self.pending()[id].handle@.0 == id
            && self.pending()[id].key.sequence == id by {
            self.lemma_slot(id);
        }
        assert(self.pending().dom() =~= self.live_generations@.dom());
    }

    /// Cancelling the handle that `schedule` just returned undoes the
    /// scheduling: the live events are those from before.
    pub proof fn law_cancel_undoes_schedule(self, event: ScheduledEvent<T>)
        requires
            self.wf(),
        ensures
            self.pending().insert(self.issued(), event).remove(self.issued()) == self.pending(),
    {
        self.law_live_events_were_issued();
        assert(!self.pending().contains_key(self.issued()));
        assert(self.pending().insert(self.issued(), event).remove(self.issued()) =~= self.pending());
    }
}

/// A handle whose event has been taken out of the live events, by `cancel`
/// or by `pop_next`, no longer names a live event, so cancelling it again
/// is refused.
pub proof fn law_consumed_handle_is_stale<T>(live: Map<u64, ScheduledEvent<T>>, handle: EventHandle)
    ensures
        !(live.remove(handle@.0).contains_key(handle@.0)),
{
}

/// The order of event keys is a strict total order on keys with distinct
/// sequence numbers: irreflexive, asymmetric, transitive, and any two such
/// keys are ordered one way or the other.
pub proof fn law_key_order_is_strict_and_total(a: EventKey, b: EventKey, c: EventKey)
    ensures
        !key_precedes(a, a),
        key_precedes(a, b) ==> !key_precedes(b, a),
        key_precedes(a, b) && key_precedes(b, c) ==> key_precedes(a, c),
        a.sequence != b.sequence ==> key_precedes(a, b) || key_precedes(b, a),
{
}

/// Events at equal times leave the queue in the order they were scheduled
/// (by sequence number), and an earlier time always leaves first.
pub proof fn law_fifo_among_equal_times(a: EventKey, b: EventKey)
    ensures
        a.at@ == b.at@ && a.sequence < b.sequence ==> key_precedes(a, b),
        a.at@ < b.at@ ==> key_precedes(a, b),
{
}

/// Successive pops come out in key order: if `first` is the earliest of
/// the live events `live` (as `pop_next` returns it) and `second` is the
/// earliest of what remains, then `first` precedes `second`.
pub proof fn law_pops_come_in_key_order<T>(
    live: Map<u64, ScheduledEvent<T>>,
    first: ScheduledEvent<T>,
    second: ScheduledEvent<T>,
)
    requires
        live.contains_key(first.handle@.0),
        live[first.handle@.0] == first,
        forall|id: u64| #[trigger]
            live.contains_key(id) && id != first.handle@.0 ==> key_precedes(
                first.key,
                live[id].key,
            ),
        live.remove(first.handle@.0).contains_key(second.handle@.0),
        live.remove(first.handle@.0)[second.handle@.0] == second,
    ensures
        key_precedes(first.key, second.key),
{
    assert(live.contains_key(second.handle@.0) && second.handle@.0 != first.handle@.0);
}

impl<T> Default for StableEventQueue<T> {
    fn default() -> (q: Self)
        ensures
            q.wf(),
            q.pending() == Map::<u64, ScheduledEvent<T>>::empty(),
            q.stored_len() == 0,
            q.issued() == 0,
    {
        Self::new()
    }
}

/// One call on a queue, as far as identifiers go: a `schedule` that
/// returned a handle, or any other call (`cancel`, `pop_next`, `peek_key`).
pub enum QueueCall {
    Schedule(EventHandle),
    Other,
}

/// How one call changes the number of issued events, as the methods'
/// contracts state it: `schedule` hands out the count as the identifier of
/// its handle and raises the count by one; every other call keeps it.
pub open spec fn issue_step(before: u64, after: u64, call: QueueCall) -> bool {
    match call {
        QueueCall::Schedule(h) => h@.0 == before && after == before + 1,
        QueueCall::Other => after == before,
    }
}

/// The number of `schedule` calls among `calls`.
pub open spec fn schedules_in(calls: Seq<QueueCall>) -> nat
    decreases calls.len(),
{
    if calls.len() == 0 {
        0
    } else {
        schedules_in(calls.drop_last()) + if calls.last() is Schedule {
            1nat
        } else {
            0nat
        }
    }
}

/// Handle identifiers count the schedules of a queue: along any run of
/// calls on a new queue (issued count `0`), the handle of each `schedule`
/// has as identifier the number of `schedule` calls before it. So the
/// handles of one queue have pairwise distinct identifiers, and none is
/// ever reused.
pub proof fn law_handle_ids_count_schedules(counts: Seq<u64>, calls: Seq<QueueCall>)
    requires
        counts.len() == calls.len() + 1,
        counts[0] == 0,
        forall|i: int|
            0 <= i < calls.len() ==> #[trigger] issue_step(counts[i], counts[i + 1], calls[i]),
    ensures
        forall|i: int|
            0 <= i < counts.len() ==> #[trigger] counts[i] == schedules_in(calls.take(i)),
        forall|i: int|
            0 <= i < calls.len() ==> (#[trigger] calls[i] matches QueueCall::Schedule(h) ==> h@.0
                == schedules_in(calls.take(i))),
        forall|i: int, j: int|
            0 <= i < calls.len() && 0 <= j < calls.len() && i != j ==> (#[trigger] calls[i]
                matches QueueCall::Schedule(a) ==> (#[trigger] calls[j] matches QueueCall::Schedule(
                b) ==> a@.0 != b@.0)),
{
    assert forall|i: int| 0 <= i < counts.len() implies #[trigger] counts[i] == schedules_in(
        calls.take(i),
    ) by {
        lemma_counts_follow(counts, calls, i);
    }
    assert forall|i: int|
        0 <= i < calls.len() implies (#[trigger] calls[i] matches QueueCall::Schedule(h) ==> h@.0
        == schedules_in(calls.take(i))) by {
        lemma_counts_follow(counts, calls, i);
        assert(issue_step(counts[i], counts[i + 1], calls[i]));
    }
    assert forall|i: int, j: int|
        0 <= i < calls.len() && 0 <= j < calls.len() && i != j implies (#[trigger] calls[i]
        matches QueueCall::Schedule(a) ==> (#[trigger] calls[j] matches QueueCall::Schedule(b)
        ==> a@.0 != b@.0)) by {
        if calls[i] is Schedule && calls[j] is Schedule {
            lemma_counts_follow(counts, calls, i);
            lemma_counts_follow(counts, calls, j);
            assert(issue_step(counts[i], counts[i + 1], calls[i]));
            assert(issue_step(counts[j], counts[j + 1], calls[j]));
            if i < j {
                lemma_schedules_grow(calls, i, j);
            } else {
                lemma_schedules_grow(calls, j, i);
            }
        }
    }
}

/// The issued count after `i` calls is the number of schedules among them.
proof fn lemma_counts_follow(counts: Seq<u64>, calls: Seq<QueueCall>, i: int)
    requires
        counts.len() == calls.len() + 1,
        counts[0] == 0,
        forall|k: int|
            0 <= k < calls.len() ==> #[trigger] issue_step(counts[k], counts[k + 1], calls[k]),
        0 <= i < counts.len(),
    ensures
        counts[i] == schedules_in(calls.take(i)),
    decreases i,
{
    if i == 0 {
        assert(calls.take(0).len() == 0);
    } else {
        let k = i - 1;
        lemma_counts_follow(counts, calls, k);
        assert(issue_step(counts[k], counts[k + 1], calls[k]));
        assert(calls.take(i).drop_last() =~= calls.take(k));
        assert(calls.take(i).last() == calls[k]);
    }
}

/// A schedule at position `i` makes every later count larger than the
/// count before it.
proof fn lemma_schedules_grow(calls: Seq<QueueCall>, i: int, j: int)
    requires
        0 <= i < j <= calls.len(),
        calls[i] is Schedule,
    ensures
        schedules_in(calls.take(j)) >= schedules_in(calls.take(i)) + 1,
    decreases j - i,
{
    assert(calls.take(j).drop_last() =~= calls.take(j - 1));
    if j == i + 1 {
        assert(calls.take(j).last() == calls[i]);
    } else {
        lemma_schedules_grow(calls, i, j - 1);
    }
}

} // verus!
