//! Single-slot "latest value" channels.
//!
//! Producer tasks publish sensor records at their own rate; the fast loop
//! drains them without ever blocking.  A send overwrites an unread value
//! (latest-value-wins, no backpressure), and a receive takes the stored
//! value, leaving the slot empty.

use vstd::prelude::*;

verus! {

/// What a send leaves in the slot: the new value, whatever was there before.
pub open spec fn spec_send<T>(slot: Option<T>, v: T) -> Option<T> {
    Some(v)
}

/// What a receive returns and what it leaves behind: the stored value, and
/// an empty slot.
pub open spec fn spec_recv<T>(slot: Option<T>) -> (Option<T>, Option<T>) {
    (slot, None)
}

/// A capacity-one mailbox.  Its view is the currently stored value.
pub struct Mailbox<T> {
    slot: Option<T>,
}

impl<T> View for Mailbox<T> {
    type V = Option<T>;

    closed spec fn view(&self) -> Option<T> {
        self.slot
    }
}

impl<T> Mailbox<T> {
    /// A fresh mailbox holds nothing.
    pub fn new() -> (m: Self)
        ensures
            m@ is None,
    {
        Mailbox { slot: None }
    }

    /// Publish a value, overwriting any unread one.  Never blocks.
    pub fn send(&mut self, v: T)
        ensures
            final(self)@ == spec_send(old(self)@, v),
    {
        self.slot = Some(v);
    }

    /// Take the newest available value, if any, leaving the slot empty.
    /// Never blocks.
    pub fn try_recv(&mut self) -> (r: Option<T>)
        ensures
            r == spec_recv(old(self)@).0,
            final(self)@ == spec_recv(old(self)@).1,
    {
        self.slot.take()
    }
}

/// Latest-value-wins law: two sends without an intervening receive leave
/// only the second value; the receive that follows returns exactly it.
pub proof fn lemma_latest_value_wins<T>(slot: Option<T>, a: T, b: T)
    ensures
        spec_recv(spec_send(spec_send(slot, a), b)).0 == Some(b),
        spec_recv(spec_send(spec_send(slot, a), b)).1 is None,
{
}

} // verus!
