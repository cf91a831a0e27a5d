//! A future that may not be there, seen as a future of a value that may
//! not be there.

use super::polled::{Immediate, Polled};
use vstd::prelude::*;

verus! {

/// A future of `Option<I>` made from an `Option` of a future of `I`.
pub struct OptionFuture<F> {
    pub inner: Option<F>,
}

/// Turning an `Option` of a future into a future.
pub trait OptionToFuture<F>: Sized {
    fn to_future(self) -> (future: OptionFuture<F>)
        ensures
            future.inner == Self::inner_of(self),
    ;

    /// The future that is wrapped, if any.
    spec fn inner_of(option: Self) -> Option<F>;
}

impl<F> OptionToFuture<F> for Option<F> {
    open spec fn inner_of(option: Self) -> Option<F> {
        option
    }

    fn to_future(self) -> (future: OptionFuture<F>) {
        OptionFuture { inner: self }
    }
}

impl<F> OptionFuture<F> {
    /// What a poll returns. Without a future inside, `None` is ready at
    /// once and `polled` is `None`; with one, `polled` is what polling it
    /// gave, and its value is handed on inside `Some`.
    pub fn polled<I, E>(&self, polled: Option<Polled<I, E>>) -> (out: Polled<Option<I>, E>)
        requires
            polled is Some <==> self.inner is Some,
        ensures
            out == match polled {
                None => Polled::<Option<I>, E>::Ready(None),
                Some(Polled::Failed(e)) => Polled::Failed(e),
                Some(Polled::NotReady) => Polled::NotReady,
                Some(Polled::Ready(value)) => Polled::Ready(Some(value)),
            },
    {
        match polled {
            None => Polled::Ready(None),
            Some(Polled::Failed(e)) => Polled::Failed(e),
            Some(Polled::NotReady) => Polled::NotReady,
            Some(Polled::Ready(value)) => Polled::Ready(Some(value)),
        }
    }
}

impl<I> OptionFuture<Immediate<I>> {
    /// Waits for a future in memory, which takes no time: the value that
    /// is inside, if a future is.
    pub fn wait(self) -> (value: Option<I>)
        requires
            self.inner matches Some(future) ==> future.value is Some,
        ensures
            value == match self.inner {
                Some(future) => future.value,
                None => None,
            },
    {
        let mut future = self;
        let polled: Option<Polled<I, ()>> = match future.inner.take() {
            None => None,
            Some(inner) => {
                let mut inner = inner;
                let polled = inner.poll();
                future.inner = Some(inner);
                Some(polled)
            },
        };
        match future.polled(polled) {
            Polled::Ready(value) => value,
            // A future in memory neither fails nor makes anyone wait.
            _ => vstd::pervasive::unreached(),
        }
    }
}

} // verus!
