//! Splitting a stream in two at an item that a predicate picks: a prefix
//! stream that ends with that item, and a remainder that is handed over once
//! the prefix has been drained.
//!
//! The prefix and the remainder share an [`Inner`]. Whoever polls the prefix
//! polls the source or the pending verdict, as [`Inner::work`] says, and hands
//! the outcome to [`Inner::feed`] or [`Inner::verdict_polled`].

use super::helpers::VecStream;
use super::polled::{Immediate, Polled};
use vstd::prelude::*;

verus! {

/// Where the feeding of the predicate stands after a poll of the source.
#[derive(Clone, Copy, Debug, PartialEq, Eq, Structural)]
pub enum FeederState {
    /// The source has no item yet.
    Waiting,
    /// The source has ended.
    Finished,
    /// An item has been fed to the predicate and its verdict is awaited.
    Processing,
}

/// What a poll of the prefix has to do first.
#[derive(Clone, Copy, Debug, PartialEq, Eq, Structural)]
pub enum Work {
    /// Nothing: the prefix has ended.
    Ended,
    /// Poll the source for the next item and feed it to the predicate.
    PollSource,
    /// Poll the verdict on the item that is pending.
    PollVerdict,
}

/// What a poll of the prefix returns, and whether the task that waits for
/// the remainder is to be woken.
pub struct PrefixPoll<ItemT, ErrorT> {
    pub poll: Polled<Option<ItemT>, ErrorT>,
    pub wake: bool,
}

/// What the prefix and the remainder share: the source, whether the prefix
/// has ended, and the item whose verdict is awaited, if any.
pub struct Inner<S, ItemT, FutureT> {
    pub stream: Option<S>,
    pub complete: bool,
    pub pending_future: Option<FutureT>,
    pub pending_item: Option<ItemT>,
}

impl<S, ItemT, FutureT> Inner<S, ItemT, FutureT> {
    /// A verdict is awaited exactly when an item is held back for it.
    pub open spec fn wf(self) -> bool {
        self.pending_future is Some <==> self.pending_item is Some
    }

    /// The work that a poll of the prefix starts with.
    pub open spec fn spec_work(&self) -> Work {
        if self.complete {
            Work::Ended
        } else if self.pending_future is Some {
            Work::PollVerdict
        } else {
            Work::PollSource
        }
    }

    /// The state before the first poll: the source untouched, nothing pending.
    pub fn new(stream: S) -> (inner: Self)
        ensures
            inner.stream == Some(stream),
            !inner.complete,
            inner.pending_future is None,
            inner.pending_item is None,
            inner.wf(),
    {
        Inner { stream: Some(stream), complete: false, pending_future: None, pending_item: None }
    }

    /// The work that a poll of the prefix starts with.
    #[verifier::when_used_as_spec(spec_work)]
    pub fn work(&self) -> (work: Work)
        ensures
            work == self.spec_work(),
    {
        if self.complete {
            Work::Ended
        } else if self.pending_future.is_some() {
            Work::PollVerdict
        } else {
            Work::PollSource
        }
    }

    /// Takes in what a poll of the source gave. An item comes with the
    /// future of the predicate's verdict on it, and both are held until the
    /// verdict is in. Anything else leaves the state as it was.
    pub fn feed<ErrorT>(&mut self, polled: Polled<Option<(ItemT, FutureT)>, ErrorT>) -> (fed:
        Result<FeederState, ErrorT>)
        requires
            old(self).wf(),
            old(self).pending_future is None,
        ensures
            final(self).wf(),
            final(self).stream == old(self).stream,
            final(self).complete == old(self).complete,
            match polled {
                Polled::Failed(e) => fed == Err::<FeederState, ErrorT>(e)
                    && *final(self) == *old(self),
                Polled::NotReady => fed == Ok::<FeederState, ErrorT>(FeederState::Waiting)
                    && *final(self) == *old(self),
                Polled::Ready(None) => fed == Ok::<FeederState, ErrorT>(FeederState::Finished)
                    && *final(self) == *old(self),
                Polled::Ready(Some((item, future))) => fed == Ok::<FeederState, ErrorT>(
                    FeederState::Processing,
                ) && final(self).pending_item == Some(item) && final(self).pending_future == Some(
                    future,
                ),
            },
    {
        match polled {
            Polled::Failed(e) => Err(e),
            Polled::NotReady => Ok(FeederState::Waiting),
            Polled::Ready(None) => Ok(FeederState::Finished),
            Polled::Ready(Some((item, future))) => {
                self.pending_future = Some(future);
                self.pending_item = Some(item);
                Ok(FeederState::Processing)
            },
        }
    }

    /// Drops the pending item and its verdict.
    pub fn clear_pending(&mut self)
        ensures
            final(self).pending_future is None,
            final(self).pending_item is None,
            final(self).stream == old(self).stream,
            final(self).complete == old(self).complete,
            final(self).wf(),
    {
        self.pending_future = None;
        self.pending_item = None;
    }

    /// Ends the prefix: nothing is pending any more, and the remainder may
    /// take the source.
    pub fn finish(&mut self)
        ensures
            final(self).complete,
            final(self).pending_future is None,
            final(self).pending_item is None,
            final(self).stream == old(self).stream,
            final(self).wf(),
    {
        self.clear_pending();
        self.complete = true;
    }

    /// A poll of the prefix that found it ended: it stays ended.
    pub fn ended_polled<ErrorT>(&self) -> (out: PrefixPoll<ItemT, ErrorT>)
        requires
            self.complete,
        ensures
            out.poll == Polled::<Option<ItemT>, ErrorT>::Ready(None),
            !out.wake,
    {
        PrefixPoll { poll: Polled::Ready(None), wake: false }
    }

    /// A poll of the prefix that has polled the source and fed the outcome
    /// in. `None` says that an item is pending and its verdict is to be
    /// polled next. At the end of the source the prefix ends too, and the
    /// remainder is woken; an error drops what was pending.
    pub fn source_polled<ErrorT>(&mut self, fed: Result<FeederState, ErrorT>) -> (out: Option<
        PrefixPoll<ItemT, ErrorT>,
    >)
        requires
            old(self).wf(),
            !old(self).complete,
            fed == Ok::<FeederState, ErrorT>(FeederState::Processing) <==> old(self).pending_future
                is Some,
        ensures
            final(self).wf(),
            final(self).stream == old(self).stream,
            match fed {
                Err(e) => out == Some(
                    PrefixPoll::<ItemT, ErrorT> { poll: Polled::Failed(e), wake: false },
                ) && !final(self).complete && final(self).pending_item is None,
                Ok(FeederState::Waiting) => out == Some(
                    PrefixPoll::<ItemT, ErrorT> { poll: Polled::NotReady, wake: false },
                ) && *final(self) == *old(self),
                Ok(FeederState::Finished) => out == Some(
                    PrefixPoll::<ItemT, ErrorT> { poll: Polled::Ready(None), wake: true },
                ) && final(self).complete && final(self).pending_item is None,
                Ok(FeederState::Processing) => out is None && *final(self) == *old(self),
            },
    {
        match fed {
            Err(e) => {
                self.clear_pending();
                Some(PrefixPoll { poll: Polled::Failed(e), wake: false })
            },
            Ok(FeederState::Waiting) => Some(PrefixPoll { poll: Polled::NotReady, wake: false }),
            Ok(FeederState::Finished) => {
                self.finish();
                Some(PrefixPoll { poll: Polled::Ready(None), wake: true })
            },
            Ok(FeederState::Processing) => None,
        }
    }

    /// A poll of the prefix that has polled the verdict on the pending item.
    /// Once the verdict is in, the item goes out; if the verdict is that it
    /// is the last, the prefix ends with it and the remainder is woken. An
    /// error drops the item.
    pub fn verdict_polled<ErrorT>(&mut self, polled: Polled<bool, ErrorT>) -> (out: PrefixPoll<
        ItemT,
        ErrorT,
    >)
        requires
            old(self).wf(),
            !old(self).complete,
            old(self).pending_future is Some,
        ensures
            final(self).wf(),
            final(self).stream == old(self).stream,
            match polled {
                Polled::Failed(e) => out == (PrefixPoll::<ItemT, ErrorT> {
                    poll: Polled::Failed(e),
                    wake: false,
                }) && !final(self).complete && final(self).pending_item is None,
                Polled::NotReady => out == (PrefixPoll::<ItemT, ErrorT> {
                    poll: Polled::NotReady,
                    wake: false,
                }) && *final(self) == *old(self),
                Polled::Ready(last) => out == (PrefixPoll::<ItemT, ErrorT> {
                    poll: Polled::Ready(old(self).pending_item),
                    wake: last,
                }) && final(self).complete == last && final(self).pending_item is None,
            },
    {
        match polled {
            Polled::Failed(e) => {
                self.clear_pending();
                PrefixPoll { poll: Polled::Failed(e), wake: false }
            },
            Polled::NotReady => PrefixPoll { poll: Polled::NotReady, wake: false },
            Polled::Ready(last) => {
                let item = self.pending_item.take();
                if last {
                    self.finish();
                } else {
                    self.clear_pending();
                }
                PrefixPoll { poll: Polled::Ready(item), wake: last }
            },
        }
    }

    /// A poll of the remainder: not ready, and the task to be parked, until
    /// the prefix has ended; then the source, which is handed over once.
    pub fn remainder_polled<ErrorT>(&mut self) -> (poll: Polled<Option<S>, ErrorT>)
        ensures
            final(self).complete == old(self).complete,
            final(self).pending_future == old(self).pending_future,
            final(self).pending_item == old(self).pending_item,
            !old(self).complete ==> poll == Polled::<Option<S>, ErrorT>::NotReady
                && final(self).stream == old(self).stream,
            old(self).complete ==> poll == Polled::<Option<S>, ErrorT>::Ready(old(self).stream)
                && final(self).stream is None,
    {
        if !self.complete {
            Polled::NotReady
        } else {
            Polled::Ready(self.stream.take())
        }
    }
}

// ----- splitting a stream in memory

/// A stream that can be split at an item that a predicate picks.
pub trait SplitUntil<T>: Sized {
    /// The items of the stream, in order.
    spec fn items(self) -> Seq<T>;

    /// Splits the stream in two: the items up to and including the first
    /// one that `is_last` says yes to, and the items behind it. If
    /// `is_last` says yes to none, the first part takes them all.
    fn split_until<P: Fn(&T) -> bool>(self, is_last: P) -> (parts: (VecStream<T>, VecStream<T>))
        requires
            forall|item: &T| call_requires(is_last, (item,)),
        ensures
            parts.0@ + parts.1@ == self.items(),
            forall|i: int|
                0 <= i < parts.0@.len() - 1 ==> call_ensures(
                    is_last,
                    (&#[trigger] self.items()[i],),
                    false,
                ),
            parts.0@.len() > 0 ==> call_ensures(is_last, (&parts.0@.last(),), true) || (
            call_ensures(is_last, (&parts.0@.last(),), false) && parts.1@.len() == 0),
            self.items().len() > 0 ==> parts.0@.len() > 0,
    ;
}

impl<T> SplitUntil<T> for VecStream<T> {
    open spec fn items(self) -> Seq<T> {
        self@
    }

    fn split_until<P: Fn(&T) -> bool>(self, is_last: P) -> (parts: (VecStream<T>, VecStream<T>)) {
        let ghost all = self@;
        let mut inner: Inner<VecStream<T>, T, Immediate<bool>> = Inner::new(self);
        let mut prefix: VecStream<T> = VecStream::empty();
        let ghost mut cut = false;
        proof {
            assert(prefix@ + all =~= all);
        }
        loop
            invariant
                forall|item: &T| call_requires(is_last, (item,)),
                inner.wf(),
                inner.stream is Some,
                prefix@ + (match inner.pending_item {
                    Some(item) => seq![item],
                    None => Seq::empty(),
                }) + inner.stream->0@ == all,
                forall|i: int|
                    0 <= i < prefix@.len() - (if cut {
                        1int
                    } else {
                        0int
                    }) ==> call_ensures(is_last, (&#[trigger] all[i],), false),
                cut ==> inner.complete && prefix@.len() > 0 && call_ensures(
                    is_last,
                    (&prefix@.last(),),
                    true,
                ),
                inner.complete && !cut ==> inner.stream->0@.len() == 0,
                inner.complete ==> inner.pending_item is None,
                inner.pending_future matches Some(future) ==> future.value matches Some(verdict)
                    && call_ensures(is_last, (&inner.pending_item->0,), verdict),
            ensures
                inner.complete,
                inner.stream is Some,
                prefix@ + inner.stream->0@ == all,
                forall|i: int|
                    0 <= i < prefix@.len() - 1 ==> call_ensures(
                        is_last,
                        (&#[trigger] all[i],),
                        false,
                    ),
                prefix@.len() > 0 ==> call_ensures(is_last, (&prefix@.last(),), true) || (
                call_ensures(is_last, (&prefix@.last(),), false) && inner.stream->0@.len() == 0),
                all.len() > 0 ==> prefix@.len() > 0,
            decreases
                    if inner.complete {
                        0
                    } else {
                        1 + 2 * inner.stream->0@.len() + if inner.pending_item is Some {
                            1nat
                        } else {
                            0nat
                        }
                    },
        {
            match inner.work() {
                Work::Ended => {
                    proof {
                        assert(prefix@ + Seq::<T>::empty() + inner.stream->0@ =~= prefix@
                            + inner.stream->0@);
                        if !cut {
                            assert(prefix@ + inner.stream->0@ =~= prefix@);
                            if prefix@.len() > 0 {
                                assert(all[prefix@.len() - 1] == prefix@.last());
                            }
                        }
                    }
                    break ;
                },
                Work::PollSource => {
                    let mut source = inner.stream.take().unwrap();
                    let ghost before = source@;
                    let polled: Polled<Option<T>, ()> = source.poll();
                    inner.stream = Some(source);
                    let event: Polled<Option<(T, Immediate<bool>)>, ()> = match polled {
                        Polled::Ready(Some(item)) => {
                            let verdict = is_last(&item);
                            Polled::Ready(Some((item, Immediate::new(verdict))))
                        },
                        Polled::Ready(None) => Polled::Ready(None),
                        // A stream in memory neither fails nor makes its reader wait.
                        _ => vstd::pervasive::unreached(),
                    };
                    proof {
                        if before.len() > 0 {
                            assert(prefix@ + seq![before[0]] + before.drop_first() =~= prefix@
                                + Seq::<T>::empty() + before);
                        }
                    }
                    let fed = inner.feed(event);
                    let _ = inner.source_polled(fed);
                },
                Work::PollVerdict => {
                    let mut future = inner.pending_future.take().unwrap();
                    let polled: Polled<bool, ()> = future.poll();
                    inner.pending_future = Some(future);
                    let ghost held = inner.pending_item->0;
                    let ghost done = prefix@;
                    let out = inner.verdict_polled(polled);
                    match out.poll {
                        Polled::Ready(Some(item)) => {
                            proof {
                                assert(done.push(item) + Seq::<T>::empty() + inner.stream->0@
                                    =~= done + seq![held] + inner.stream->0@);
                                assert(all[done.len() as int] == item);
                                cut = out.wake;
                            }
                            prefix.push(item);
                        },
                        _ => {
                            vstd::pervasive::unreached::<()>();
                        },
                    }
                },
            }
        }
        let remainder = match inner.remainder_polled::<()>() {
            Polled::Ready(Some(stream)) => stream,
            _ => vstd::pervasive::unreached(),
        };
        (prefix, remainder)
    }
}

} // verus!
