use lib4bottle::stream_toolkit::helpers::{stream_of_vec, VecStream};
use lib4bottle::stream_toolkit::polled::Polled;
use lib4bottle::stream_toolkit::split_until::{FeederState, Inner, SplitUntil, Work};

fn one_to_six() -> VecStream<u32> {
    stream_of_vec(vec![1, 2, 3, 4, 5, 6])
}

#[test]
fn test_split_until_simple_split() {
    let s = one_to_six();
    let (left, right) = s.split_until(|n| *n == 4);
    assert_eq!(left.collect(), vec![1, 2, 3, 4]);
    assert_eq!(right.collect(), vec![5, 6]);
}

#[test]
fn test_split_until_all_left() {
    let s = one_to_six();
    let (left, right) = s.split_until(|_| false);
    assert_eq!(left.collect(), vec![1, 2, 3, 4, 5, 6]);
    assert_eq!(right.collect(), vec![]);
}

#[test]
fn test_split_until_all_right() {
    let s = one_to_six();
    let (left, right) = s.split_until(|_| true);
    assert_eq!(left.collect(), vec![1]);
    assert_eq!(right.collect(), vec![2, 3, 4, 5, 6]);
}

#[test]
fn split_an_empty_stream() {
    let s: VecStream<u32> = VecStream::empty();
    let (left, right) = s.split_until(|_| true);
    assert_eq!(left.collect(), vec![]);
    assert_eq!(right.collect(), vec![]);
}

#[test]
fn split_at_the_last_item() {
    let (left, right) = one_to_six().split_until(|n| *n == 6);
    assert_eq!(left.collect(), vec![1, 2, 3, 4, 5, 6]);
    assert_eq!(right.collect(), vec![]);
}

#[test]
fn polls_of_the_prefix() {
    let mut inner: Inner<&'static str, u32, &'static str> = Inner::new("source");
    assert_eq!(inner.work(), Work::PollSource);

    // the source is not ready
    let fed = inner.feed::<i32>(Polled::NotReady);
    assert_eq!(fed, Ok(FeederState::Waiting));
    let out = inner.source_polled(fed).unwrap();
    assert!(matches!(out.poll, Polled::NotReady));
    assert!(!out.wake);

    // the remainder is asked for too early
    assert!(matches!(inner.remainder_polled::<i32>(), Polled::NotReady));

    // an item comes, and its verdict is awaited
    let fed = inner.feed::<i32>(Polled::Ready(Some((7, "verdict"))));
    assert_eq!(fed, Ok(FeederState::Processing));
    assert!(inner.source_polled(fed).is_none());
    assert_eq!(inner.work(), Work::PollVerdict);
    let out = inner.verdict_polled::<i32>(Polled::NotReady);
    assert!(matches!(out.poll, Polled::NotReady));
    assert_eq!(inner.pending_item, Some(7));

    // the verdict is no: the item goes out and the prefix goes on
    let out = inner.verdict_polled::<i32>(Polled::Ready(false));
    assert!(matches!(out.poll, Polled::Ready(Some(7))));
    assert!(!out.wake);
    assert!(!inner.complete);
    assert_eq!(inner.work(), Work::PollSource);

    // the verdict is yes: the item goes out and the prefix ends
    let fed = inner.feed::<i32>(Polled::Ready(Some((8, "verdict"))));
    assert!(inner.source_polled(fed).is_none());
    let out = inner.verdict_polled::<i32>(Polled::Ready(true));
    assert!(matches!(out.poll, Polled::Ready(Some(8))));
    assert!(out.wake);
    assert!(inner.complete);
    assert_eq!(inner.work(), Work::Ended);
    let out = inner.ended_polled::<i32>();
    assert!(matches!(out.poll, Polled::Ready(None)));

    // the remainder hands the source over, once
    assert!(matches!(inner.remainder_polled::<i32>(), Polled::Ready(Some("source"))));
    assert!(matches!(inner.remainder_polled::<i32>(), Polled::Ready(None)));
}

#[test]
fn the_prefix_ends_with_the_source() {
    let mut inner: Inner<u8, u32, ()> = Inner::new(0);
    let fed = inner.feed::<i32>(Polled::Ready(None));
    assert_eq!(fed, Ok(FeederState::Finished));
    let out = inner.source_polled(fed).unwrap();
    assert!(matches!(out.poll, Polled::Ready(None)));
    assert!(out.wake);
    assert!(inner.complete);
}

#[test]
fn errors_drop_what_is_pending() {
    let mut inner: Inner<u8, u32, ()> = Inner::new(0);
    let fed = inner.feed(Polled::Failed(5));
    assert_eq!(fed, Err(5));
    let out = inner.source_polled(fed).unwrap();
    assert!(matches!(out.poll, Polled::Failed(5)));
    assert!(!inner.complete);

    let fed = inner.feed::<i32>(Polled::Ready(Some((1, ()))));
    assert!(inner.source_polled(fed).is_none());
    let out = inner.verdict_polled(Polled::Failed(6));
    assert!(matches!(out.poll, Polled::Failed(6)));
    assert!(inner.pending_item.is_none());
    assert!(inner.pending_future.is_none());
    assert!(!inner.complete);

    inner.pending_item = Some(3);
    inner.pending_future = Some(());
    inner.clear_pending();
    assert!(inner.pending_item.is_none());
    inner.finish();
    assert!(inner.complete);
}

#[test]
fn test_split_until_wake_up_right_stream() {
    // the remainder is asked for before the prefix has been drained
    let mut inner: Inner<VecStream<u32>, u32, bool> = Inner::new(one_to_six());
    assert!(matches!(inner.remainder_polled::<()>(), Polled::NotReady));

    let mut left = Vec::new();
    let mut woken = false;
    while inner.work() != Work::Ended {
        let item = match inner.stream.as_mut().unwrap().poll::<()>() {
            Polled::Ready(Some(n)) => Polled::Ready(Some((n, n == 4))),
            Polled::Ready(None) => Polled::Ready(None),
            _ => unreachable!(),
        };
        let fed = inner.feed::<()>(item);
        let out = match inner.source_polled(fed) {
            Some(out) => out,
            None => {
                let verdict = inner.pending_future.unwrap();
                inner.verdict_polled(Polled::Ready(verdict))
            }
        };
        woken = woken || out.wake;
        if let Polled::Ready(Some(n)) = out.poll {
            left.push(n);
        }
    }
    assert_eq!(left, vec![1, 2, 3, 4]);
    assert!(woken);
    match inner.remainder_polled::<()>() {
        Polled::Ready(Some(right)) => assert_eq!(right.collect(), vec![5, 6]),
        _ => panic!("the remainder should be ready"),
    }
}
