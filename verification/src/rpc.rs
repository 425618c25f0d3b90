//! Matching replies to the requests that a node has sent.
//!
//! Each request goes out under a fresh message id, and whatever waits for
//! the reply is kept under that id until the reply comes in or the wait is
//! cancelled.

use std::collections::HashMap;
use vstd::prelude::*;

verus! {

broadcast use vstd::std_specs::hash::group_hash_axioms;

/// A reply came in that answers no outstanding request.
#[derive(Debug, Clone, Copy, PartialEq, Eq)]
pub struct Unmatched {
    /// The `in_reply_to` of the reply.
    pub id: usize,
}

/// The id after `id`. Ids wrap round to 0 after the largest.
pub open spec fn id_after(id: usize) -> usize {
    if id == usize::MAX {
        0
    } else {
        (id + 1) as usize
    }
}

/// The ids given out so far and what waits under them.
pub struct Table<W> {
    /// The id that the next message gets.
    pub next: usize,
    /// What waits for a reply, under the id of its request.
    pub pending: Map<usize, W>,
}

impl<W> Table<W> {
    /// The table after a request was registered with `waiter`.
    pub open spec fn registered(self, waiter: W) -> Table<W> {
        Table { next: id_after(self.next), pending: self.pending.insert(self.next, waiter) }
    }

    /// The table after the wait under `id` ended, by a reply or by
    /// cancellation.
    pub open spec fn resolved(self, id: usize) -> Table<W> {
        Table { next: self.next, pending: self.pending.remove(id) }
    }
}

/// Gives out message ids and keeps what waits for replies.
pub struct Correlator<W> {
    next: usize,
    pending: HashMap<usize, W>,
}

impl<W> View for Correlator<W> {
    type V = Table<W>;

    closed spec fn view(&self) -> Table<W> {
        Table { next: self.next, pending: self.pending@ }
    }
}

impl<W> Correlator<W> {
    /// A correlator with nothing pending, whose first id is `first`.
    pub fn new(first: usize) -> (c: Self)
        ensures
            c@ == (Table::<W> { next: first, pending: Map::empty() }),
    {
        Correlator { next: first, pending: HashMap::new() }
    }

    /// The id that the next message gets.
    pub fn next_id(&self) -> (id: usize)
        ensures
            id == self@.next,
    {
        self.next
    }

    /// Whether something waits under `id`.
    pub fn is_pending(&self, id: usize) -> (pending: bool)
        ensures
            pending == self@.pending.contains_key(id),
    {
        self.pending.contains_key(&id)
    }

    /// How many requests are outstanding.
    pub fn outstanding(&self) -> (n: usize)
        ensures
            n == self@.pending.len(),
    {
        self.pending.len()
    }

    /// Takes an id for a message that expects no reply.
    pub fn take_id(&mut self) -> (id: usize)
        ensures
            id == old(self)@.next,
            final(self)@ == (Table { next: id_after(id), pending: old(self)@.pending }),
    {
        let id = self.next;
        self.next = if id == usize::MAX {
            0
        } else {
            id + 1
        };
        id
    }

    /// Takes an id for a request and keeps `waiter` under it. An id under
    /// which something still waits is not given out again: then nothing
    /// changes and the waiter is handed back.
    pub fn register(&mut self, waiter: W) -> (r: Result<usize, W>)
        ensures
            match r {
                Ok(id) => {
                    &&& id == old(self)@.next
                    &&& !old(self)@.pending.contains_key(id)
                    &&& final(self)@ == old(self)@.registered(waiter)
                },
                Err(back) => {
                    &&& old(self)@.pending.contains_key(old(self)@.next)
                    &&& back == waiter
                    &&& final(self)@ == old(self)@
                },
            },
    {
        if self.pending.contains_key(&self.next) {
            Err(waiter)
        } else {
            let id = self.take_id();
            self.pending.insert(id, waiter);
            Ok(id)
        }
    }

    /// Takes out what waits for the reply to the request `id`. A reply to
    /// a request that is not outstanding is reported, and changes nothing.
    pub fn resolve(&mut self, id: usize) -> (r: Result<W, Unmatched>)
        ensures
            final(self)@ == old(self)@.resolved(id),
            match r {
                Ok(waiter) => old(self)@.pending.contains_key(id) && waiter == old(self)@.pending[id],
                Err(e) => !old(self)@.pending.contains_key(id) && e == (Unmatched { id }),
            },
    {
        match self.pending.remove(&id) {
            Some(waiter) => Ok(waiter),
            None => Err(Unmatched { id }),
        }
    }

    /// Gives up the wait for the reply to the request `id`, and hands back
    /// what waited, if anything did.
    pub fn cancel(&mut self, id: usize) -> (r: Option<W>)
        ensures
            final(self)@ == old(self)@.resolved(id),
            match r {
                Some(waiter) => old(self)@.pending.contains_key(id) && waiter == old(self)@.pending[id],
                None => !old(self)@.pending.contains_key(id),
            },
    {
        self.pending.remove(&id)
    }
}

/// A wait ends once. After a reply to the request `id` has been matched, or
/// the wait for it cancelled, nothing waits under `id`, so a second reply
/// to it is unmatched; every other wait is untouched.
pub proof fn law_wait_ends_once<W>(table: Table<W>, id: usize)
    ensures
        !table.resolved(id).pending.contains_key(id),
        table.resolved(id).resolved(id) == table.resolved(id),
        forall|other: usize|
            other != id ==> (#[trigger] table.resolved(id).pending.contains_key(other)
                <==> table.pending.contains_key(other)),
        forall|other: usize|
            other != id && table.pending.contains_key(other) ==> #[trigger] table.resolved(
                id,
            ).pending[other] == table.pending[other],
{
    assert(table.resolved(id).pending.remove(id) =~= table.resolved(id).pending);
}

/// A reply reaches the waiter of its own request. What was registered is
/// found again under the id it was given, whatever other requests were
/// registered or resolved in between under other ids.
pub proof fn law_reply_finds_its_waiter<W>(table: Table<W>, waiter: W, other: W, gone: usize)
    requires
        !table.pending.contains_key(table.next),
        gone != table.next,
    ensures
        table.registered(waiter).pending[table.next] == waiter,
        table.registered(waiter).registered(other).pending[table.next] == waiter,
        table.registered(waiter).resolved(gone).pending[table.next] == waiter,
{
}

} // verus!
