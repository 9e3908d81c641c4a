use std::collections::BTreeSet;

use async_channels::mpsc::{channel, SendError};
use async_channels::Poll;

#[test]
fn mpsc_test_send_recv() {
    let (tx, rx, mut inner) = channel::<i32, u32>();
    for i in 0..100 {
        let (res, _) = tx.send(&mut inner, i);
        res.unwrap();
    }
    for i in 0..100 {
        match rx.poll_next(&mut inner, 0) {
            Poll::Ready(Some(v)) => assert_eq!(v, i),
            _ => panic!("expected the next value of the stream"),
        }
    }
}

#[test]
fn mpsc_test_drop() {
    let (tx, rx, mut inner) = channel::<(), u32>();
    let _ = tx.disconnect(&mut inner);
    assert!(matches!(rx.poll_next(&mut inner, 0), Poll::Ready(None)));

    let (tx, rx, mut inner) = channel::<(), u32>();
    rx.disconnect(&mut inner);
    let (res, _) = tx.send(&mut inner, ());
    assert!(matches!(res, Err(SendError::ReceiverDropped(()))));
}

#[test]
fn test_multiple_tx() {
    let (tx, rx, mut inner) = channel::<usize, u32>();

    let mut txs = Vec::new();
    for _ in 0..10 {
        txs.push(tx.duplicate(&mut inner));
    }
    for (i, t) in txs.into_iter().enumerate() {
        let (res, _) = t.send(&mut inner, i);
        res.unwrap();
        let _ = t.disconnect(&mut inner);
    }
    let _ = tx.disconnect(&mut inner);

    let mut received_msgs = BTreeSet::new();
    while let Poll::Ready(Some(msg)) = rx.poll_next(&mut inner, 0) {
        received_msgs.insert(msg);
    }
    assert_eq!(received_msgs.len(), 10);

    received_msgs
        .into_iter()
        .enumerate()
        .for_each(|(i, msg)| assert_eq!(i, msg));
}

#[test]
fn mpsc_send_wakes_suspended_receiver() {
    let (tx, rx, mut inner) = channel::<i32, u32>();
    assert!(matches!(rx.poll_next(&mut inner, 9), Poll::Pending));
    let (res, woken) = tx.send(&mut inner, 1);
    res.unwrap();
    assert_eq!(woken, Some(9));
    assert!(matches!(rx.poll_next(&mut inner, 0), Poll::Ready(Some(1))));
}

#[test]
fn mpsc_sender_drop_wakes_suspended_receiver() {
    let (tx, rx, mut inner) = channel::<i32, u32>();
    assert!(matches!(rx.poll_next(&mut inner, 4), Poll::Pending));
    let woken = tx.disconnect(&mut inner);
    assert_eq!(woken, Some(4));
    assert!(matches!(rx.poll_next(&mut inner, 0), Poll::Ready(None)));
}

#[test]
fn mpsc_drains_before_end_of_stream() {
    let (tx, rx, mut inner) = channel::<i32, u32>();
    for i in 0..3 {
        let (res, _) = tx.send(&mut inner, i);
        res.unwrap();
    }
    let _ = tx.disconnect(&mut inner);
    // values sent before the last sender went away still arrive, in order
    for i in 0..3 {
        assert!(matches!(rx.poll_next(&mut inner, 0), Poll::Ready(Some(v)) if v == i));
    }
    assert!(matches!(rx.poll_next(&mut inner, 0), Poll::Ready(None)));
}
