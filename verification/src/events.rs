//! The replay ring of server-sent events: the most recent events, each with
//! an id one above the one before, so that a client that reconnects gets
//! what it missed, or learns that it missed too much.

use vstd::prelude::*;

verus! {

/// How many events the ring keeps.
pub const SSE_RING_CAPACITY: usize = 512;

/// The most recent events with their ids, oldest first.
pub struct EventRing<T> {
    next_id: u64,
    events: Vec<(u64, T)>,
}

impl<T> EventRing<T> {
    /// The id of the last event published, 0 before the first.
    pub closed spec fn last_id(&self) -> u64 {
        self.next_id
    }

    /// The events kept, oldest first, with their ids.
    pub closed spec fn kept(&self) -> Seq<(u64, T)> {
        self.events@
    }

    /// At most `SSE_RING_CAPACITY` events, with consecutive ids ending at
    /// the last id published.
    pub closed spec fn wf(&self) -> bool {
        &&& self.events@.len() <= SSE_RING_CAPACITY
        &&& self.events@.len() <= self.next_id
        &&& forall|i: int| 0 <= i < self.events@.len() ==> (#[trigger] self.events@[i]).0 == self.next_id - self.events@.len() + 1 + i
    }

    /// An empty ring.
    pub fn new() -> (r: Self)
        ensures
            r.wf(),
            r.last_id() == 0,
            r.kept().len() == 0,
    {
        EventRing { next_id: 0, events: Vec::new() }
    }

    /// The id of the last event published, 0 before the first.
    pub fn last_published(&self) -> (r: u64)
        ensures
            r == self.last_id(),
    {
        self.next_id
    }

    /// How many events are kept.
    pub fn len(&self) -> (r: usize)
        ensures
            r == self.kept().len(),
    {
        self.events.len()
    }

    /// The event kept at position `i`, oldest first, with its id.
    pub fn get(&self, i: usize) -> (r: &(u64, T))
        requires
            i < self.kept().len(),
        ensures
            *r == self.kept()[i as int],
    {
        &self.events[i]
    }

    /// Publishes an event under the next id and returns the id; the oldest
    /// event leaves when the ring is full.
    pub fn publish(&mut self, item: T) -> (id: u64)
        requires
            old(self).wf(),
            old(self).last_id() < u64::MAX,
        ensures
            final(self).wf(),
            id == old(self).last_id() + 1,
            final(self).last_id() == id,
            final(self).kept() == (if old(self).kept().len() == SSE_RING_CAPACITY {
                old(self).kept().drop_first()
            } else {
                old(self).kept()
            }).push((id, item)),
    {
        let id = self.next_id + 1;
        let ghost before = self.events@;
        if self.events.len() == SSE_RING_CAPACITY {
            self.events.remove(0);
            assert(self.events@ =~= before.drop_first());
        }
        let ghost mid = self.events@;
        self.events.push((id, item));
        self.next_id = id;
        proof {
            assert forall|i: int| 0 <= i < self.events@.len() implies (#[trigger] self.events@[i]).0 == self.next_id
                - self.events@.len() + 1 + i by {
                if i < mid.len() {
                    if before.len() == SSE_RING_CAPACITY {
                        assert(mid[i] == before[i + 1]);
                    } else {
                        assert(mid[i] == before[i]);
                    }
                }
            }
        }
        id
    }

    /// Where the events after `last` start among those kept, and whether
    /// some event after `last` has already left the ring. Without `last`
    /// nothing is replayed and nothing has expired.
    pub fn replay_after(&self, last: Option<u64>) -> (r: (usize, bool))
        requires
            self.wf(),
        ensures
            r.0 <= self.kept().len(),
            last is None ==> r.0 == self.kept().len() && !r.1,
            last matches Some(l) ==> {
                &&& forall|i: int| 0 <= i < r.0 ==> (#[trigger] self.kept()[i]).0 <= l
                &&& forall|i: int| r.0 <= i < self.kept().len() ==> (#[trigger] self.kept()[i]).0 > l
                &&& r.1 == (self.kept().len() > 0 && l + 1 < self.kept()[0].0)
            },
    {
        match last {
            None => (self.events.len(), false),
            Some(l) => {
                let n = self.events.len();
                let mut i: usize = 0;
                while i < n && self.events[i].0 <= l
                    invariant
                        i <= n,
                        n == self.events@.len(),
                        self.wf(),
                        forall|j: int| 0 <= j < i ==> (#[trigger] self.events@[j]).0 <= l,
                    decreases n - i,
                {
                    i = i + 1;
                }
                proof {
                    assert forall|j: int| i <= j < self.events@.len() implies (#[trigger] self.events@[j]).0 > l by {
                        if i < n {
                            assert(self.events@[i as int].0 > l);
                        }
                    }
                }
                let expired = n > 0 && l < u64::MAX && l + 1 < self.events[0].0;
                (i, expired)
            },
        }
    }
}


/// What the ring keeps after `items` were published, in order, into an
/// empty ring: the last `SSE_RING_CAPACITY` of them (or all), each with its
/// publication number as id.
pub open spec fn ring_after<T>(items: Seq<T>) -> Seq<(u64, T)> {
    let n = items.len() as int;
    let kept = if n < SSE_RING_CAPACITY { n } else { SSE_RING_CAPACITY as int };
    Seq::new(kept as nat, |i: int| ((n - kept + i + 1) as u64, items[n - kept + i]))
}

/// Publishing one more event into the ring after `items` gives the ring
/// after `items` followed by it: the id is one above the last, and the
/// oldest event leaves a full ring.
pub proof fn law_publish_extends<T>(items: Seq<T>, item: T)
    requires
        items.len() < u64::MAX,
    ensures
        (if ring_after(items).len() == SSE_RING_CAPACITY { ring_after(items).drop_first() } else { ring_after(items) }).push(
            ((items.len() + 1) as u64, item),
        ) == ring_after(items.push(item)),
{
    let a = (if ring_after(items).len() == SSE_RING_CAPACITY { ring_after(items).drop_first() } else { ring_after(items) }).push(
        ((items.len() + 1) as u64, item),
    );
    let b = ring_after(items.push(item));
    assert(a.len() == b.len());
    assert forall|i: int| 0 <= i < a.len() implies a[i] == b[i] by {
        if i < a.len() - 1 {
            assert(items.push(item)[items.len() + 1 - b.len() + i] == items[items.len() + 1 - b.len() + i]);
        }
    }
    assert(a =~= b);
}

/// After `items` were published, a client that last saw id `last` is
/// replayed exactly the kept events published after it: the split falls
/// where their ids pass `last`, and events were lost exactly when an event
/// after `last` has already left the ring.
pub proof fn law_replay_after_history<T>(items: Seq<T>, last: u64, start: int, expired: bool)
    requires
        items.len() < u64::MAX,
        0 <= start <= ring_after(items).len(),
        forall|i: int| 0 <= i < start ==> (#[trigger] ring_after(items)[i]).0 <= last,
        forall|i: int| start <= i < ring_after(items).len() ==> (#[trigger] ring_after(items)[i]).0 > last,
        expired == (ring_after(items).len() > 0 && last + 1 < ring_after(items)[0].0),
    ensures
        ({
            let n = items.len() as int;
            let dropped = n - ring_after(items).len();
            &&& start == (if last <= dropped { 0 } else if last >= n { n - dropped } else { last - dropped })
            &&& forall|i: int| start <= i < ring_after(items).len() ==> #[trigger] ring_after(items)[i] == ((dropped + i + 1) as u64, items[dropped + i])
            &&& expired == (last < dropped)
        }),
{
    let r = ring_after(items);
    let n = items.len() as int;
    let dropped = n - r.len();
    let want = if last <= dropped { 0 } else if last >= n { n - dropped } else { last - dropped };
    if start < want {
        assert(r[start].0 == dropped + start + 1);
    } else if start > want {
        assert(r[start - 1].0 == dropped + start);
    }
}

} // verus!
