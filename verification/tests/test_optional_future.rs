use lib4bottle::stream_toolkit::optional_future::{OptionFuture, OptionToFuture};
use lib4bottle::stream_toolkit::polled::{Immediate, Polled};

#[test]
fn optional_none() {
    let f: Option<Immediate<u32>> = None;
    assert_eq!(f.to_future().wait(), None);
}

#[test]
fn optional_some() {
    let f: Option<Immediate<u32>> = Some(Immediate::new(10));
    assert_eq!(f.to_future().wait(), Some(10));
}

#[test]
fn polls_of_an_optional_future() {
    let none: OptionFuture<&'static str> = None.to_future();
    assert!(matches!(none.polled::<u32, i32>(None), Polled::Ready(None)));
    let some: OptionFuture<&'static str> = Some("future").to_future();
    assert!(matches!(some.polled::<u32, i32>(Some(Polled::NotReady)), Polled::NotReady));
    assert!(matches!(some.polled::<u32, i32>(Some(Polled::Ready(4))), Polled::Ready(Some(4))));
    assert!(matches!(some.polled::<u32, i32>(Some(Polled::Failed(-4))), Polled::Failed(-4)));
}
