//! The one-shot result slot behind every picker future.
//!
//! A [`PickState`] is shared between the future handed to the caller and the
//! platform callback that produces the result.  The callback *delivers* a
//! value; the future *polls* the slot.  Polling an empty slot registers the
//! executor's waker so that the next delivery can wake it.  The waker type is
//! a parameter, so the slot can be driven by any executor (and by tests).

use vstd::prelude::*;

verus! {

/// Shared state between a picker future and the callback that completes it.
pub struct PickState<T, W> {
    /// The result value, set by [`PickState::deliver`].
    pub result: Option<T>,
    /// The most recent waker registered by [`PickState::poll`].
    pub waker: Option<W>,
}

/// The slot after a poll with `waker`, and what the poll yields.
pub open spec fn poll_step<T, W>(s: PickState<T, W>, waker: W) -> (PickState<T, W>, Option<T>) {
    match s.result {
        Some(v) => (PickState { result: None, waker: s.waker }, Some(v)),
        None => (PickState { result: None, waker: Some(waker) }, None),
    }
}

/// The slot after delivering `value`, and the waker to wake.
pub open spec fn deliver_step<T, W>(s: PickState<T, W>, value: T) -> (PickState<T, W>, Option<W>) {
    (PickState { result: Some(value), waker: None }, s.waker)
}

impl<T, W> PickState<T, W> {
    /// An empty slot: no result and no waker yet.
    pub fn new() -> (r: Self)
        ensures
            r.result is None,
            r.waker is None,
    {
        PickState { result: None, waker: None }
    }

    /// Polls the slot: yields the delivered value if there is one (emptying
    /// the slot), and otherwise registers `waker` and yields nothing.
    pub fn poll(&mut self, waker: W) -> (r: Option<T>)
        ensures
            (*final(self), r) == poll_step(*old(self), waker),
    {
        match self.result.take() {
            Some(v) => Some(v),
            None => {
                self.waker = Some(waker);
                None
            },
        }
    }

    /// Stores `value` as the result and hands back the registered waker, which
    /// the caller must wake once it has released the slot.
    pub fn deliver(&mut self, value: T) -> (w: Option<W>)
        ensures
            (*final(self), w) == deliver_step(*old(self), value),
    {
        self.result = Some(value);
        self.waker.take()
    }
}

/// Before any delivery, polling is pending and registers the waker.
pub proof fn lemma_pending_before_delivery<T, W>(waker: W)
    ensures
        poll_step(PickState::<T, W> { result: None, waker: None }, waker)
            == (PickState::<T, W> { result: None, waker: Some(waker) }, None::<T>),
{
}

/// A delivery hands back exactly the waker that the last pending poll
/// registered, so the executor that is waiting gets woken.
pub proof fn lemma_delivery_wakes_registered_waker<T, W>(s: PickState<T, W>, waker: W, value: T)
    requires
        s.result is None,
    ensures
        deliver_step(poll_step(s, waker).0, value).1 == Some(waker),
{
}

/// Whatever happened before, a poll that follows a delivery yields the
/// delivered value, and leaves the slot empty.
pub proof fn lemma_ready_after_delivery<T, W>(s: PickState<T, W>, value: T, waker: W)
    ensures
        poll_step(deliver_step(s, value).0, waker).1 == Some(value),
        poll_step(deliver_step(s, value).0, waker).0.result is None,
{
}

/// One delivery, one result: after the delivered value has been polled out,
/// the next poll is pending again.
pub proof fn lemma_value_polled_once<T, W>(s: PickState<T, W>, value: T, w1: W, w2: W)
    ensures
        poll_step(poll_step(deliver_step(s, value).0, w1).0, w2).1 is None,
{
}

} // verus!
