use lib4bottle::stream_toolkit::helpers::{stream_of_vec, VecStream};
use lib4bottle::stream_toolkit::polled::{Immediate, Polled};
use lib4bottle::stream_toolkit::stream_generator::{
    completion_early, completion_polled, ended_polled, generate_stream, item_polled,
    producer_called, state_polled, CompletionTurn, State, StreamGenerator, Turn,
};

fn collect<S, I, F: Fn(S) -> (Option<I>, S)>(generator: &mut StreamGenerator<S, I, F>) -> Vec<I> {
    let mut items = Vec::new();
    while let Some(item) = generator.poll() {
        items.push(item);
    }
    items
}

#[test]
fn generate_small_stream() {
    let mut generator = generate_stream(0, |counter| {
        if counter < 10 { (Some(counter), counter + 1) } else { (None, counter) }
    });

    assert_eq!(collect(&mut generator), vec![0, 1, 2, 3, 4, 5, 6, 7, 8, 9]);
    assert_eq!(generator.poll_completion().unwrap(), 10);
}

#[test]
fn generate_nested_stream() {
    let source: VecStream<usize> = stream_of_vec((0..10).collect());
    let mut generator = generate_stream(source, |s| {
        let mut s = s;
        let item = match s.poll::<()>() {
            Polled::Ready(Some(n)) if n < 3 => Some(n),
            _ => None,
        };
        (item, s)
    });

    assert_eq!(collect(&mut generator), vec![0, 1, 2]);
    assert_eq!(generator.poll_completion().unwrap().collect(), vec![4, 5, 6, 7, 8, 9]);
}

#[test]
fn the_completion_waits_for_the_end_of_the_stream() {
    let mut generator = generate_stream(0u32, |n| if n < 2 { (Some(n), n + 1) } else { (None, n) });
    assert!(generator.poll_completion().is_none());
    assert_eq!(generator.poll(), Some(0));
    assert!(generator.poll_completion().is_none());
    assert_eq!(generator.poll(), Some(1));
    assert!(generator.poll_completion().is_none());
    assert_eq!(generator.poll(), None);
    // a stream that has ended stays ended
    assert_eq!(generator.poll(), None);
    assert_eq!(generator.poll_completion(), Some(2));
    assert!(generator.inner.is_none());
}

type Phase = State<u8, &'static str, &'static str>;
type Step = Turn<u8, &'static str, &'static str, char, i32>;

#[test]
fn turns_of_a_poll() {
    // the producer was called
    let turn: Step = producer_called("item");
    assert!(matches!(turn, Turn::Again { state: State::WorkingOnItem("item") }));

    // the future of the item
    let turn: Step = item_polled("item", Polled::NotReady);
    assert!(matches!(
        turn,
        Turn::Return { state: State::WorkingOnItem("item"), poll: Polled::NotReady, wake: false }
    ));
    let turn: Step = item_polled("item", Polled::Ready((Some('x'), "state")));
    assert!(matches!(
        turn,
        Turn::Return { state: State::WorkingOnState("state"), poll: Polled::Ready(Some('x')), wake: false }
    ));
    let turn: Step = item_polled("item", Polled::Ready((None, "state")));
    assert!(matches!(
        turn,
        Turn::Return { state: State::Done("state"), poll: Polled::Ready(None), wake: true }
    ));
    let turn: Step = item_polled("item", Polled::Failed(-1));
    assert!(matches!(
        turn,
        Turn::Return { state: State::Error, poll: Polled::Failed(-1), wake: false }
    ));

    // the future of the state
    let turn: Step = state_polled("state", Polled::NotReady);
    assert!(matches!(
        turn,
        Turn::Return { state: State::WorkingOnState("state"), poll: Polled::NotReady, wake: false }
    ));
    let turn: Step = state_polled("state", Polled::Ready(7));
    assert!(matches!(turn, Turn::Again { state: State::Ready(7) }));
    let turn: Step = state_polled("state", Polled::Failed(-2));
    assert!(matches!(
        turn,
        Turn::Return { state: State::Error, poll: Polled::Failed(-2), wake: false }
    ));

    // after the end
    let turn: Step = ended_polled(Phase::Error);
    assert!(matches!(
        turn,
        Turn::Return { state: State::Error, poll: Polled::Ready(None), wake: false }
    ));
    let turn: Step = ended_polled(Phase::Done("state"));
    assert!(matches!(
        turn,
        Turn::Return { state: State::Done("state"), poll: Polled::Ready(None), wake: false }
    ));
}

#[test]
fn turns_of_the_completion() {
    type Wait = CompletionTurn<u8, &'static str, &'static str, i32>;
    let turn: Wait = completion_early(Phase::Ready(1));
    assert!(matches!(turn, CompletionTurn::Park { state: State::Ready(1) }));
    let turn: Wait = completion_early(Phase::Error);
    assert!(matches!(turn, CompletionTurn::Park { state: State::Error }));
    let turn: Wait = completion_polled("state", Polled::NotReady);
    assert!(matches!(turn, CompletionTurn::Wait { state: State::Done("state") }));
    let turn: Wait = completion_polled("state", Polled::Ready(9));
    assert!(matches!(turn, CompletionTurn::Resolve { result: Ok(9) }));
    let turn: Wait = completion_polled("state", Polled::Failed(3));
    assert!(matches!(turn, CompletionTurn::Resolve { result: Err(3) }));
}

#[test]
fn an_immediate_future_hands_its_value_out_once() {
    let mut future = Immediate::new(5);
    assert!(matches!(future.poll::<()>(), Polled::Ready(5)));
    assert!(future.value.is_none());
}

#[test]
fn wake_up_future() {
    let mut generator = generate_stream(0, |counter| {
        if counter < 10 { (Some(counter), counter + 1) } else { (None, counter) }
    });

    // the completion is asked for before the stream has been drained
    assert!(generator.poll_completion().is_none());
    assert_eq!(collect(&mut generator), vec![0, 1, 2, 3, 4, 5, 6, 7, 8, 9]);
    assert_eq!(generator.poll_completion().unwrap(), 10);
}
