use async_channels::broadcast::{channel, SendError};
use async_channels::Poll;

#[test]
fn broadcast_test_send_recv() {
    let (tx, rx, mut inner) = channel::<i32, u32>();

    let n = 5;
    let tx_num = 3;
    let rx_num = 2;

    let mut txs = Vec::new();
    for _ in 0..tx_num {
        txs.push(tx.duplicate(&mut inner));
    }
    let rxs: Vec<_> = (0..rx_num).map(|_| rx.duplicate(&mut inner)).collect();

    for (i, t) in txs.iter().enumerate() {
        for j in 0..n {
            let v = (i as i32) * n + j;
            let (res, _) = t.send(&mut inner, v);
            res.unwrap();
        }
    }
    for t in txs {
        let _ = t.disconnect(&mut inner);
    }
    let _ = tx.disconnect(&mut inner);

    for r in &rxs {
        let mut msgs = vec![];
        loop {
            match r.poll_next(&mut inner, 0) {
                Poll::Ready(Some(msg)) => msgs.push(msg),
                Poll::Ready(None) => break,
                Poll::Pending => panic!("the stream must end, not suspend"),
            }
        }
        let expect: Vec<_> = (0..tx_num as i32)
            .flat_map(|i| (0..n).map(move |j| i * n + j))
            .collect();
        assert_eq!(msgs, expect);
    }
}

#[test]
fn broadcast_send_fails_without_receivers() {
    let (tx, rx, mut inner) = channel::<i32, u32>();
    rx.disconnect(&mut inner);
    let (res, woken) = tx.send(&mut inner, 9);
    assert!(matches!(res, Err(SendError::ReceiverDropped(9))));
    assert!(woken.is_empty());
}

#[test]
fn broadcast_end_of_stream() {
    let (tx, rx, mut inner) = channel::<i32, u32>();
    let (res, _) = tx.send(&mut inner, 1);
    res.unwrap();
    let _ = tx.disconnect(&mut inner);
    assert!(matches!(rx.poll_next(&mut inner, 0), Poll::Ready(Some(1))));
    assert!(matches!(rx.poll_next(&mut inner, 0), Poll::Ready(None)));
}

#[test]
fn broadcast_trims_consumed_prefix() {
    let (tx, rx, mut inner) = channel::<i32, u32>();
    for v in 1..4 {
        let (res, _) = tx.send(&mut inner, v);
        res.unwrap();
    }
    assert_eq!(inner.buffer.len(), 3);
    for v in 1..4 {
        assert!(matches!(inner_read(&rx, &mut inner), Some(got) if got == v));
    }
    // everything was read, but reclamation happens on the next send, which
    // keeps only the value it appends
    assert_eq!(inner.buffer.len(), 3);
    let (res, _) = tx.send(&mut inner, 4);
    res.unwrap();
    assert_eq!(inner.buffer.len(), 1);
    assert_eq!(inner.clear_count, 3);
    assert!(matches!(inner_read(&rx, &mut inner), Some(4)));
}

#[test]
fn broadcast_lagging_receiver_pins_buffer() {
    let (tx, rx, mut inner) = channel::<i32, u32>();
    let lagging = rx.duplicate(&mut inner);
    for v in 0..4 {
        let (res, _) = tx.send(&mut inner, v);
        res.unwrap();
        assert!(matches!(inner_read(&rx, &mut inner), Some(got) if got == v));
    }
    // `lagging` has read nothing, so nothing could be trimmed
    assert_eq!(inner.buffer.len(), 4);
    assert_eq!(inner.clear_count, 0);
    for v in 0..4 {
        assert!(matches!(inner_read(&lagging, &mut inner), Some(got) if got == v));
    }
    // once the laggard catches up, the next send reclaims the prefix
    let (res, _) = tx.send(&mut inner, 9);
    res.unwrap();
    assert_eq!(inner.buffer.len(), 1);
    assert_eq!(inner.clear_count, 4);
}

#[test]
fn broadcast_receivers_independent_and_identical() {
    let (tx, rx, mut inner) = channel::<i32, u32>();
    // subscribed at the same moment, on a fresh channel: both observe
    // exactly the future sends, in the same order, at their own pace
    let r1 = rx.duplicate(&mut inner);
    let r2 = rx.duplicate(&mut inner);
    for v in [10, 20, 30] {
        let (res, _) = tx.send(&mut inner, v);
        res.unwrap();
    }
    assert!(matches!(inner_read(&r1, &mut inner), Some(10)));
    assert!(matches!(inner_read(&r1, &mut inner), Some(20)));
    assert!(matches!(inner_read(&r2, &mut inner), Some(10)));
    assert!(matches!(inner_read(&r1, &mut inner), Some(30)));
    assert!(matches!(inner_read(&r2, &mut inner), Some(20)));
    assert!(matches!(inner_read(&r2, &mut inner), Some(30)));
}

#[test]
fn broadcast_clone_observes_retained_backlog() {
    let (tx, rx, mut inner) = channel::<i32, u32>();
    let (res, _) = tx.send(&mut inner, 1);
    res.unwrap();
    // a clone starts at the trimmed front: a value still retained at its
    // creation it does observe
    let late = rx.duplicate(&mut inner);
    assert!(matches!(inner_read(&late, &mut inner), Some(1)));
}

#[test]
fn broadcast_wakes_every_suspended_receiver() {
    let (tx, rx, mut inner) = channel::<i32, u32>();
    let r1 = rx.duplicate(&mut inner);
    assert!(matches!(rx.poll_next(&mut inner, 7), Poll::Pending));
    assert!(matches!(r1.poll_next(&mut inner, 8), Poll::Pending));
    let (res, woken) = tx.send(&mut inner, 5);
    res.unwrap();
    assert_eq!(woken, vec![7, 8]);

    assert!(matches!(rx.poll_next(&mut inner, 0), Poll::Ready(Some(5))));
    assert!(matches!(r1.poll_next(&mut inner, 0), Poll::Ready(Some(5))));

    // dropping the last sender also wakes everyone still suspended
    assert!(matches!(rx.poll_next(&mut inner, 3), Poll::Pending));
    let woken = tx.disconnect(&mut inner);
    assert_eq!(woken, vec![3]);
    assert!(matches!(rx.poll_next(&mut inner, 0), Poll::Ready(None)));
}

#[test]
fn broadcast_dropped_receiver_stops_pinning() {
    let (tx, rx, mut inner) = channel::<i32, u32>();
    let idle = rx.duplicate(&mut inner);
    for v in 0..3 {
        let (res, _) = tx.send(&mut inner, v);
        res.unwrap();
        assert!(matches!(inner_read(&rx, &mut inner), Some(got) if got == v));
    }
    assert_eq!(inner.buffer.len(), 3);
    // removing the idle registration lets the next send trim everything rx
    // has read
    idle.disconnect(&mut inner);
    let (res, _) = tx.send(&mut inner, 9);
    res.unwrap();
    assert_eq!(inner.buffer.len(), 1);
}

fn inner_read(
    rx: &async_channels::broadcast::Receiver,
    inner: &mut async_channels::broadcast::Inner<i32, u32>,
) -> Option<i32> {
    match rx.poll_next(inner, 0) {
        Poll::Ready(v) => v,
        Poll::Pending => panic!("expected a ready poll"),
    }
}
