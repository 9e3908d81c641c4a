use async_channels::oneshot::{channel, RecvError, SendError};
use async_channels::Poll;

#[test]
fn oneshot_test_send_recv() {
    let (tx, rx, mut inner) = channel::<i32, u32>();

    let (res, woken) = tx.send(&mut inner, 123);
    res.expect("Error sending value");
    assert!(woken.is_none());
    match rx.poll(&mut inner, 0) {
        Poll::Ready(Ok(v)) => assert_eq!(v, 123),
        _ => panic!("Error receiving value"),
    }

    // A receiver that polls first suspends; the send hands its resumption
    // handle back for invocation.
    let (tx, rx, mut inner) = channel::<i32, u32>();

    assert!(matches!(rx.poll(&mut inner, 7), Poll::Pending));
    let (res, woken) = tx.send(&mut inner, 123);
    res.expect("Error sending value to task");
    assert_eq!(woken, Some(7));
    match rx.poll(&mut inner, 8) {
        Poll::Ready(Ok(v)) => assert_eq!(v, 123),
        _ => panic!("Error receiving value in task"),
    }
}

#[test]
fn oneshot_test_drop() {
    let (tx, rx, mut inner) = channel::<i32, u32>();
    rx.disconnect(&mut inner);
    let (res, _) = tx.send(&mut inner, 123);
    assert!(matches!(res, Err(SendError::ReceiverDropped(123))));

    let (tx, rx, mut inner) = channel::<(), u32>();
    let _ = tx.disconnect(&mut inner);
    assert!(matches!(
        rx.poll(&mut inner, 0),
        Poll::Ready(Err(RecvError::SenderDropped))
    ));
}

#[test]
fn oneshot_sender_drop_wakes_pending_receiver() {
    let (tx, rx, mut inner) = channel::<i32, u32>();
    assert!(matches!(rx.poll(&mut inner, 5), Poll::Pending));
    let woken = tx.disconnect(&mut inner);
    assert_eq!(woken, Some(5));
    assert!(matches!(
        rx.poll(&mut inner, 6),
        Poll::Ready(Err(RecvError::SenderDropped))
    ));
}

#[test]
fn oneshot_value_arrives_exactly_once() {
    let (tx, rx, mut inner) = channel::<i32, u32>();
    let (res, _) = tx.send(&mut inner, 42);
    res.unwrap();
    assert!(matches!(rx.poll(&mut inner, 0), Poll::Ready(Ok(42))));
    // the value was consumed; with the sender gone this is now a dead end,
    // not a second delivery
    assert!(matches!(rx.poll(&mut inner, 1), Poll::Pending));
}
