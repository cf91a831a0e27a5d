//! A stream made from a state and a producer. The producer is called with
//! the state and gives a future of the next item, paired with a future of the
//! next state; when the item is `None` the stream has ended, and the state
//! that is left goes to whoever waits for the completion.
//!
//! The phase of the generator lives in a cell that the stream and the
//! completion share. Whoever polls takes the phase out of the cell, does the
//! work that the phase asks for (calls the producer, polls a future), and
//! hands the outcome to one of the functions below, which says what goes
//! back into the cell and what the poll returns.

use super::polled::{Immediate, Polled};
use vstd::prelude::*;

verus! {

/// The phase that a generator is in.
pub enum State<StateT, ItemFutureT, StateFutureT> {
    /// No future is running: the producer is to be called with this state.
    Ready(StateT),
    /// The future of the next item is being polled.
    WorkingOnItem(ItemFutureT),
    /// An item went out; the future of the next state is being polled.
    WorkingOnState(StateFutureT),
    /// The stream has ended; the future of the last state is kept for the
    /// completion.
    Done(StateFutureT),
    /// A future failed. The stream has ended and no state is left.
    Error,
}

/// What one turn of the stream's poll loop comes to.
pub enum Turn<StateT, ItemFutureT, StateFutureT, ItemT, ErrorT> {
    /// Put `state` into the cell and go round again.
    Again { state: State<StateT, ItemFutureT, StateFutureT> },
    /// Put `state` into the cell, wake the task that waits for the
    /// completion if `wake` is set, and return `poll`.
    Return {
        state: State<StateT, ItemFutureT, StateFutureT>,
        poll: Polled<Option<ItemT>, ErrorT>,
        wake: bool,
    },
}

/// What a poll of the completion comes to.
pub enum CompletionTurn<StateT, ItemFutureT, StateFutureT, ErrorT> {
    /// The stream has not ended: put `state` back, park the task, and
    /// return not ready.
    Park { state: State<StateT, ItemFutureT, StateFutureT> },
    /// The last state is still on its way: put `state` back and return not
    /// ready.
    Wait { state: State<StateT, ItemFutureT, StateFutureT> },
    /// The completion resolves to `state`, or fails. The cell stays empty.
    Resolve { result: Result<StateT, ErrorT> },
}

impl<StateT, ItemFutureT, StateFutureT> State<StateT, ItemFutureT, StateFutureT> {
    /// The stream has ended, well or badly.
    pub open spec fn ended(self) -> bool {
        self is Done || self is Error
    }

    /// An upper bound on the turns that a poll takes from this phase before
    /// it returns.
    pub open spec fn turns_left(self) -> nat {
        match self {
            State::WorkingOnState(_) => 3,
            State::Ready(_) => 2,
            _ => 1,
        }
    }
}

impl<StateT, ItemFutureT, StateFutureT, ItemT, ErrorT> Turn<
    StateT,
    ItemFutureT,
    StateFutureT,
    ItemT,
    ErrorT,
> {
    /// The phase that goes back into the cell.
    pub open spec fn next(self) -> State<StateT, ItemFutureT, StateFutureT> {
        match self {
            Turn::Again { state } => state,
            Turn::Return { state, .. } => state,
        }
    }
}

/// The turn that follows a call of the producer.
pub open spec fn after_call<StateT, ItemFutureT, StateFutureT, ItemT, ErrorT>(
    item_future: ItemFutureT,
) -> Turn<StateT, ItemFutureT, StateFutureT, ItemT, ErrorT> {
    Turn::Again { state: State::WorkingOnItem(item_future) }
}

/// The turn that follows a poll of the future of the next item.
pub open spec fn after_item<StateT, ItemFutureT, StateFutureT, ItemT, ErrorT>(
    item_future: ItemFutureT,
    polled: Polled<(Option<ItemT>, StateFutureT), ErrorT>,
) -> Turn<StateT, ItemFutureT, StateFutureT, ItemT, ErrorT> {
    match polled {
        Polled::Failed(e) => Turn::Return {
            state: State::Error,
            poll: Polled::Failed(e),
            wake: false,
        },
        Polled::NotReady => Turn::Return {
            state: State::WorkingOnItem(item_future),
            poll: Polled::NotReady,
            wake: false,
        },
        Polled::Ready((None, state_future)) => Turn::Return {
            state: State::Done(state_future),
            poll: Polled::Ready(None),
            wake: true,
        },
        Polled::Ready((Some(item), state_future)) => Turn::Return {
            state: State::WorkingOnState(state_future),
            poll: Polled::Ready(Some(item)),
            wake: false,
        },
    }
}

/// The turn that follows a poll of the future of the next state.
pub open spec fn after_state<StateT, ItemFutureT, StateFutureT, ItemT, ErrorT>(
    state_future: StateFutureT,
    polled: Polled<StateT, ErrorT>,
) -> Turn<StateT, ItemFutureT, StateFutureT, ItemT, ErrorT> {
    match polled {
        Polled::Failed(e) => Turn::Return {
            state: State::Error,
            poll: Polled::Failed(e),
            wake: false,
        },
        Polled::NotReady => Turn::Return {
            state: State::WorkingOnState(state_future),
            poll: Polled::NotReady,
            wake: false,
        },
        Polled::Ready(state) => Turn::Again { state: State::Ready(state) },
    }
}

/// The turn of a poll that finds the stream ended.
pub open spec fn after_end<StateT, ItemFutureT, StateFutureT, ItemT, ErrorT>(
    state: State<StateT, ItemFutureT, StateFutureT>,
) -> Turn<StateT, ItemFutureT, StateFutureT, ItemT, ErrorT> {
    Turn::Return { state, poll: Polled::Ready(None), wake: false }
}

/// What a poll of the completion comes to once the future of the last state
/// has been polled.
pub open spec fn completion_after<StateT, ItemFutureT, StateFutureT, ErrorT>(
    state_future: StateFutureT,
    polled: Polled<StateT, ErrorT>,
) -> CompletionTurn<StateT, ItemFutureT, StateFutureT, ErrorT> {
    match polled {
        Polled::Failed(e) => CompletionTurn::Resolve { result: Err(e) },
        Polled::NotReady => CompletionTurn::Wait { state: State::Done(state_future) },
        Polled::Ready(state) => CompletionTurn::Resolve { result: Ok(state) },
    }
}

/// The phase was `Ready` and the producer has been called: its future is
/// polled on the next turn.
pub fn producer_called<StateT, ItemFutureT, StateFutureT, ItemT, ErrorT>(
    item_future: ItemFutureT,
) -> (turn: Turn<StateT, ItemFutureT, StateFutureT, ItemT, ErrorT>)
    ensures
        turn == after_call::<StateT, ItemFutureT, StateFutureT, ItemT, ErrorT>(item_future),
{
    Turn::Again { state: State::WorkingOnItem(item_future) }
}

/// The phase was `WorkingOnItem(item_future)` and the future has been
/// polled. A failure ends the stream for good. An item goes out and the
/// future of the next state takes over. `None` ends the stream, keeps the
/// future of the last state for the completion, and wakes its task.
pub fn item_polled<StateT, ItemFutureT, StateFutureT, ItemT, ErrorT>(
    item_future: ItemFutureT,
    polled: Polled<(Option<ItemT>, StateFutureT), ErrorT>,
) -> (turn: Turn<StateT, ItemFutureT, StateFutureT, ItemT, ErrorT>)
    ensures
        turn == after_item::<StateT, ItemFutureT, StateFutureT, ItemT, ErrorT>(item_future, polled),
{
    match polled {
        Polled::Failed(e) => Turn::Return {
            state: State::Error,
            poll: Polled::Failed(e),
            wake: false,
        },
        Polled::NotReady => Turn::Return {
            state: State::WorkingOnItem(item_future),
            poll: Polled::NotReady,
            wake: false,
        },
        Polled::Ready((None, state_future)) => Turn::Return {
            state: State::Done(state_future),
            poll: Polled::Ready(None),
            wake: true,
        },
        Polled::Ready((Some(item), state_future)) => Turn::Return {
            state: State::WorkingOnState(state_future),
            poll: Polled::Ready(Some(item)),
            wake: false,
        },
    }
}

/// The phase was `WorkingOnState(state_future)` and the future has been
/// polled. With the next state in hand the poll goes round again, to call
/// the producer; a failure ends the stream for good.
pub fn state_polled<StateT, ItemFutureT, StateFutureT, ItemT, ErrorT>(
    state_future: StateFutureT,
    polled: Polled<StateT, ErrorT>,
) -> (turn: Turn<StateT, ItemFutureT, StateFutureT, ItemT, ErrorT>)
    ensures
        turn == after_state::<StateT, ItemFutureT, StateFutureT, ItemT, ErrorT>(state_future, polled),
{
    match polled {
        Polled::Failed(e) => Turn::Return {
            state: State::Error,
            poll: Polled::Failed(e),
            wake: false,
        },
        Polled::NotReady => Turn::Return {
            state: State::WorkingOnState(state_future),
            poll: Polled::NotReady,
            wake: false,
        },
        Polled::Ready(state) => Turn::Again { state: State::Ready(state) },
    }
}

/// The phase was `Done` or `Error`: the stream stays ended, whatever is
/// polled and however often.
pub fn ended_polled<StateT, ItemFutureT, StateFutureT, ItemT, ErrorT>(
    state: State<StateT, ItemFutureT, StateFutureT>,
) -> (turn: Turn<StateT, ItemFutureT, StateFutureT, ItemT, ErrorT>)
    requires
        state.ended(),
    ensures
        turn == after_end::<StateT, ItemFutureT, StateFutureT, ItemT, ErrorT>(state),
{
    Turn::Return { state, poll: Polled::Ready(None), wake: false }
}

/// A poll of the completion that found the phase `Done(state_future)` and
/// has polled that future: the completion resolves to the last state, fails
/// with the future's error, or waits with the phase as it was.
pub fn completion_polled<StateT, ItemFutureT, StateFutureT, ErrorT>(
    state_future: StateFutureT,
    polled: Polled<StateT, ErrorT>,
) -> (turn: CompletionTurn<StateT, ItemFutureT, StateFutureT, ErrorT>)
    ensures
        turn == completion_after::<StateT, ItemFutureT, StateFutureT, ErrorT>(state_future, polled),
{
    match polled {
        Polled::Failed(e) => CompletionTurn::Resolve { result: Err(e) },
        Polled::NotReady => CompletionTurn::Wait { state: State::Done(state_future) },
        Polled::Ready(state) => CompletionTurn::Resolve { result: Ok(state) },
    }
}

/// A poll of the completion that found any phase but `Done`: the task is
/// parked until the stream ends, and the phase goes back as it was.
pub fn completion_early<StateT, ItemFutureT, StateFutureT, ErrorT>(
    state: State<StateT, ItemFutureT, StateFutureT>,
) -> (turn: CompletionTurn<StateT, ItemFutureT, StateFutureT, ErrorT>)
    requires
        !(state is Done),
    ensures
        turn == (CompletionTurn::<StateT, ItemFutureT, StateFutureT, ErrorT>::Park { state }),
{
    CompletionTurn::Park { state }
}

/// Every turn that sends the poll round again leaves fewer turns to go, so a
/// poll of the stream returns after three turns at most.
pub proof fn lemma_poll_returns<StateT, ItemFutureT, StateFutureT, ItemT, ErrorT>(
    item_future: ItemFutureT,
    state_future: StateFutureT,
    polled: Polled<StateT, ErrorT>,
)
    ensures
        after_call::<StateT, ItemFutureT, StateFutureT, ItemT, ErrorT>(
            item_future,
        ).next().turns_left() == 1,
        after_state::<StateT, ItemFutureT, StateFutureT, ItemT, ErrorT>(state_future, polled)
            is Again ==> after_state::<StateT, ItemFutureT, StateFutureT, ItemT, ErrorT>(
            state_future,
            polled,
        ).next().turns_left() == 2,
        forall|p: Polled<(Option<ItemT>, StateFutureT), ErrorT>|
            #[trigger] after_item::<StateT, ItemFutureT, StateFutureT, ItemT, ErrorT>(
                item_future,
                p,
            ) is Return,
{
}

/// The task that waits for the completion is woken by the very turn that
/// ends the stream well, and by no other.
pub proof fn lemma_wake_at_end<StateT, ItemFutureT, StateFutureT, ItemT, ErrorT>(
    item_future: ItemFutureT,
    state_future: StateFutureT,
    item: Polled<(Option<ItemT>, StateFutureT), ErrorT>,
    state: Polled<StateT, ErrorT>,
    ended: State<StateT, ItemFutureT, StateFutureT>,
)
    ensures
        after_item::<StateT, ItemFutureT, StateFutureT, ItemT, ErrorT>(item_future, item)
            matches Turn::Return { state: next, wake, .. } && (wake <==> next is Done),
        after_state::<StateT, ItemFutureT, StateFutureT, ItemT, ErrorT>(state_future, state)
            matches Turn::Return { state: next, wake, .. } ==> !wake && !(next is Done),
        after_end::<StateT, ItemFutureT, StateFutureT, ItemT, ErrorT>(ended)
            matches Turn::Return { state: next, wake, poll } && !wake && next == ended
            && poll == Polled::<Option<ItemT>, ErrorT>::Ready(None),
{
}

// ----- a generator in memory

/// The future of an item that a producer in memory gives.
pub type ItemNow<StateT, ItemT> = Immediate<(Option<ItemT>, Immediate<StateT>)>;

/// A generator whose producer answers at once: each call gives the next
/// item and the next state themselves. It stands for both the stream and
/// its completion. The cell is empty once the completion has resolved.
pub struct StreamGenerator<StateT, ItemT, FunctionT> {
    pub f: FunctionT,
    pub inner: Option<State<StateT, ItemNow<StateT, ItemT>, Immediate<StateT>>>,
}

/// A generator that starts from `state` and calls `f` for each item.
pub fn generate_stream<StateT, ItemT, FunctionT: Fn(StateT) -> (Option<ItemT>, StateT)>(
    state: StateT,
    f: FunctionT,
) -> (generator: StreamGenerator<StateT, ItemT, FunctionT>)
    requires
        forall|state: StateT| call_requires(f, (state,)),
    ensures
        generator.f == f,
        generator.inner == Some(
            State::<StateT, ItemNow<StateT, ItemT>, Immediate<StateT>>::Ready(state),
        ),
        generator.wf(),
{
    StreamGenerator { f, inner: Some(State::Ready(state)) }
}

impl<StateT, ItemT, FunctionT: Fn(StateT) -> (Option<ItemT>, StateT)> StreamGenerator<
    StateT,
    ItemT,
    FunctionT,
> {
    /// The state that the producer is called with next, if the stream has
    /// not ended.
    pub open spec fn next_state(self) -> Option<StateT> {
        match self.inner {
            Some(State::Ready(state)) => Some(state),
            Some(State::WorkingOnState(future)) => future.value,
            _ => None,
        }
    }

    /// The state that is left for the completion, if the stream has ended
    /// well and the completion has not resolved yet.
    pub open spec fn last_state(self) -> Option<StateT> {
        match self.inner {
            Some(State::Done(future)) => future.value,
            _ => None,
        }
    }

    /// Between polls no future of an item is under way, and every future
    /// that is kept has its value. The producer can be called with any
    /// state.
    pub open spec fn wf(self) -> bool {
        &&& forall|state: StateT| call_requires(self.f, (state,))
        &&& match self.inner {
            Some(State::WorkingOnItem(_)) => false,
            Some(State::WorkingOnState(future)) => future.value is Some,
            Some(State::Done(future)) => future.value is Some,
            _ => true,
        }
    }

    /// One poll of the stream. While the stream has not ended, the
    /// producer is called once, with the state that the last call left: an
    /// item goes out, and `None` ends the stream and keeps the state for the
    /// completion. A stream that has ended stays ended.
    pub fn poll(&mut self) -> (item: Option<ItemT>)
        requires
            old(self).wf(),
            old(self).inner is Some,
        ensures
            final(self).wf(),
            final(self).f == old(self).f,
            final(self).inner is Some,
            match old(self).next_state() {
                Some(state) => exists|next: StateT|
                    {
                        &&& #[trigger] call_ensures(old(self).f, (state,), (item, next))
                        &&& item is Some ==> final(self).next_state() == Some(next)
                        &&& item is None ==> final(self).last_state() == Some(next)
                    },
                None => item is None && final(self).inner == old(self).inner,
            },
    {
        let mut state = self.inner.take().unwrap();
        let ghost start = old(self).next_state();
        let ghost mut made: Option<Option<ItemT>> = None;
        let ghost mut left: Option<StateT> = None;
        loop
            invariant
                self.f == old(self).f,
                start == old(self).next_state(),
                forall|state: StateT| call_requires(self.f, (state,)),
                match state {
                    State::Ready(s) => start == Some(s),
                    State::WorkingOnState(future) => future.value == start && start is Some,
                    State::WorkingOnItem(future) => start is Some && made is Some && left is Some
                        && call_ensures(self.f, (start->0,), (made->0, left->0)) && future.value
                        == Some((made->0, Immediate { value: left })),
                    State::Done(future) => start is None && future.value is Some && old(self).inner
                        == Some(state),
                    State::Error => start is None && old(self).inner == Some(state),
                },
            decreases state.turns_left(),
        {
            let turn: Turn<StateT, ItemNow<StateT, ItemT>, Immediate<StateT>, ItemT, ()> =
                match state {
                State::Ready(s) => {
                    let (item, next) = (self.f)(s);
                    proof {
                        made = Some(item);
                        left = Some(next);
                    }
                    producer_called(Immediate::new((item, Immediate::new(next))))
                },
                State::WorkingOnItem(future) => {
                    let mut future = future;
                    let polled = future.poll();
                    item_polled(future, polled)
                },
                State::WorkingOnState(future) => {
                    let mut future = future;
                    let polled = future.poll();
                    state_polled(future, polled)
                },
                ended => ended_polled(ended),
            };
            match turn {
                Turn::Again { state: next } => {
                    state = next;
                },
                Turn::Return { state: next, poll, wake } => {
                    self.inner = Some(next);
                    match poll {
                        Polled::Ready(item) => {
                            proof {
                                if start is Some {
                                    assert(item == made->0);
                                    assert(call_ensures(
                                        old(self).f,
                                        (start->0,),
                                        (item, left->0),
                                    ));
                                    assert(item is Some ==> self.next_state() == left);
                                    assert(item is None ==> self.last_state() == left);
                                }
                            }
                            return item;
                        },
                        // A producer in memory neither fails nor makes the stream wait.
                        _ => {
                            return vstd::pervasive::unreached();
                        },
                    }
                },
            }
        }
    }

    /// One poll of the completion: the state that the stream ended with,
    /// once it has ended; `None`, and nothing changed, before that.
    pub fn poll_completion(&mut self) -> (state: Option<StateT>)
        requires
            old(self).wf(),
            old(self).inner is Some,
        ensures
            final(self).f == old(self).f,
            state == old(self).last_state(),
            state is Some ==> final(self).inner is None,
            state is None ==> final(self).inner == old(self).inner,
    {
        let turn: CompletionTurn<StateT, ItemNow<StateT, ItemT>, Immediate<StateT>, ()> =
            match self.inner.take().unwrap() {
            State::Done(future) => {
                let mut future = future;
                let polled = future.poll();
                completion_polled(future, polled)
            },
            other => completion_early(other),
        };
        match turn {
            CompletionTurn::Park { state } => {
                self.inner = Some(state);
                None
            },
            CompletionTurn::Resolve { result: Ok(state) } => Some(state),
            // A state in memory neither fails nor makes the completion wait.
            _ => vstd::pervasive::unreached(),
        }
    }
}

} // verus!
