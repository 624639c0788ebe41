//! The system-route address pool: a bounded FIFO of the addresses currently
//! provisioned on the network interface.  An insertion pushes the new address
//! at the back; the eviction pass then pops entries from the front until the
//! pool is back at capacity, handing the evicted addresses to the caller so
//! the matching interface removals can be issued, oldest first.
use vstd::prelude::*;

use std::collections::VecDeque;
use std::ops::Index;

verus! {

broadcast use vstd::std_specs::vecdeque::group_vec_dequeue_axioms;

/// What a history of insertions leaves in a pool of capacity `cap`: the most
/// recent `cap` entries, in insertion order.
pub open spec fn retained_after(s: Seq<u128>, cap: int) -> Seq<u128> {
    if s.len() <= cap {
        s
    } else {
        s.skip(s.len() - cap)
    }
}

/// What a history of insertions pushes out of a pool of capacity `cap`: the
/// oldest entries beyond capacity, in insertion order.
pub open spec fn evicted_of(s: Seq<u128>, cap: int) -> Seq<u128> {
    if s.len() <= cap {
        Seq::empty()
    } else {
        s.take(s.len() - cap)
    }
}

/// The bounded FIFO pool of provisioned outbound addresses.
#[derive(Debug)]
pub struct AddressPool {
    entries: VecDeque<u128>,
    capacity: usize,
}

impl View for AddressPool {
    type V = Seq<u128>;

    closed spec fn view(&self) -> Seq<u128> {
        self.entries@
    }
}

impl AddressPool {
    /// The configured capacity.
    pub closed spec fn cap(self) -> int {
        self.capacity as int
    }

    pub fn capacity(&self) -> (r: usize)
        ensures
            r == self.cap(),
    {
        self.capacity
    }

    /// An empty pool of the given capacity.
    pub fn new(capacity: usize) -> (r: Self)
        ensures
            r@ == Seq::<u128>::empty(),
            r.cap() == capacity,
    {
        AddressPool { entries: VecDeque::new(), capacity }
    }

    pub fn len(&self) -> (r: usize)
        ensures
            r == self@.len(),
    {
        self.entries.len()
    }

    /// The pool's contents, oldest first.
    pub fn contents(&self) -> (r: Vec<u128>)
        ensures
            r@ == self@,
    {
        let mut out: Vec<u128> = Vec::new();
        let mut i: usize = 0;
        while i < self.entries.len()
            invariant
                i <= self@.len(),
                out@ =~= self@.take(i as int),
            decreases self@.len() - i,
        {
            out.push(*self.entries.index(i));
            i = i + 1;
        }
        proof {
            assert(out@ =~= self@);
        }
        out
    }

    /// Records a freshly provisioned address at the back of the queue,
    /// without evicting; the eviction pass may be skipped when the pool lock
    /// could not be taken in time.
    pub fn push_address(&mut self, a: u128)
        ensures
            final(self)@ == old(self)@.push(a),
            final(self).cap() == old(self).cap(),
    {
        self.entries.push_back(a);
    }

    /// The eviction pass: pops entries from the front, oldest first, until
    /// the pool is back at capacity, and returns them in the order popped.
    pub fn evict_excess(&mut self) -> (evicted: Vec<u128>)
        ensures
            final(self).cap() == old(self).cap(),
            final(self)@ == retained_after(old(self)@, old(self).cap()),
            evicted@ == evicted_of(old(self)@, old(self).cap()),
            final(self)@.len() <= old(self)@.len(),
            final(self)@.len() <= old(self).cap() || final(self)@.len() == old(self)@.len(),
    {
        let mut evicted: Vec<u128> = Vec::new();
        while self.entries.len() > self.capacity
            invariant
                self.capacity == old(self).capacity,
                evicted@ + self@ =~= old(self)@,
                evicted@.len() + self@.len() == old(self)@.len(),
                self@.len() >= self.capacity || evicted@.len() == 0,
            decreases self@.len(),
        {
            match self.entries.pop_front() {
                Option::Some(a) => {
                    evicted.push(a);
                },
                Option::None => {},
            }
            proof {
                assert(evicted@ + self@ =~= old(self)@);
            }
        }
        proof {
            assert(self@ =~= retained_after(old(self)@, old(self).cap()));
            assert(evicted@ =~= evicted_of(old(self)@, old(self).cap()));
        }
        evicted
    }

    /// One full insertion: push the address, then run the eviction pass.
    /// Afterwards the pool never exceeds its capacity, and what was evicted
    /// is exactly the oldest overflow, in insertion order.
    pub fn insert_address(&mut self, a: u128) -> (evicted: Vec<u128>)
        ensures
            final(self).cap() == old(self).cap(),
            final(self)@ == retained_after(old(self)@.push(a), old(self).cap()),
            evicted@ == evicted_of(old(self)@.push(a), old(self).cap()),
            old(self)@.len() <= old(self).cap() ==> final(self)@.len() <= old(self).cap(),
    {
        self.push_address(a);
        self.evict_excess()
    }
}

/// The pool contents after a whole history of insertions, each step being
/// what `insert_address` leaves: the push followed by the eviction pass.
pub open spec fn pool_after_history(h: Seq<u128>, cap: int) -> Seq<u128>
    decreases h.len(),
{
    if h.len() == 0 {
        Seq::empty()
    } else {
        retained_after(pool_after_history(h.drop_last(), cap).push(h.last()), cap)
    }
}

/// After any sequence of insertions, a pool of capacity `cap` holds exactly
/// the most recently inserted `cap` addresses, in insertion order, and never
/// more than `cap` entries.
pub proof fn lemma_history_retention(h: Seq<u128>, cap: int)
    requires
        cap >= 0,
    ensures
        pool_after_history(h, cap) == retained_after(h, cap),
        pool_after_history(h, cap).len() <= cap,
    decreases h.len(),
{
    if h.len() == 0 {
        assert(retained_after(h, cap) =~= Seq::empty());
    } else {
        lemma_history_retention(h.drop_last(), cap);
        lemma_fifo_retention(h.drop_last(), h.last(), cap);
        assert(h.drop_last().push(h.last()) =~= h);
    }
}

/// The FIFO retention step: if a pool holds what some insertion history has
/// retained, then one more insertion (with its eviction pass) leaves exactly
/// what the extended history retains — the most recent `cap` addresses in
/// insertion order — and never more than `cap` entries.
pub proof fn lemma_fifo_retention(h: Seq<u128>, a: u128, cap: int)
    requires
        cap >= 0,
    ensures
        retained_after(retained_after(h, cap).push(a), cap) == retained_after(h.push(a), cap),
        retained_after(h.push(a), cap).len() <= cap,
{
    if h.len() < cap {
        assert(retained_after(retained_after(h, cap).push(a), cap) =~= retained_after(
            h.push(a),
            cap,
        ));
    } else {
        assert(retained_after(h, cap) =~= h.skip(h.len() - cap));
        assert(retained_after(retained_after(h, cap).push(a), cap) =~= retained_after(
            h.push(a),
            cap,
        ));
    }
}

} // verus!
