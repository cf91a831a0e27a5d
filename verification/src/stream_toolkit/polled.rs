//! The outcome of polling a future or a stream once.

use vstd::prelude::*;

verus! {

/// What one poll gave: an error, nothing yet, or a value. Polling a stream
/// gives `Ready(Some(item))` for an item and `Ready(None)` at its end.
pub enum Polled<T, E> {
    Failed(E),
    NotReady,
    Ready(T),
}

/// A future whose value is there already. The first poll hands the value
/// out; it is not polled again.
pub struct Immediate<T> {
    pub value: Option<T>,
}

impl<T> Immediate<T> {
    /// A future of `value`.
    pub fn new(value: T) -> (future: Self)
        ensures
            future.value == Some(value),
    {
        Immediate { value: Some(value) }
    }

    /// One poll: the value.
    pub fn poll<ErrorT>(&mut self) -> (polled: Polled<T, ErrorT>)
        requires
            old(self).value is Some,
        ensures
            polled == Polled::<T, ErrorT>::Ready(old(self).value->0),
            final(self).value is None,
    {
        Polled::Ready(self.value.take().unwrap())
    }
}

} // verus!
