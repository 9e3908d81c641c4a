//! A channel that delivers exactly one value from one producer to one
//! consumer.
//!
//! The shared [`Inner`] state is the whole channel; the [`Sender`] and
//! [`Receiver`] handles witness which side of it the caller drives. A
//! handle that goes away must run its `disconnect` transition, the
//! explicit counterpart of a destructor, so the peer can observe the end
//! instead of waiting forever.

use crate::Poll;
use vstd::prelude::*;

verus! {

/// Error returned by `send`: the receiving half is gone. The value travels
/// back to the caller inside the error instead of being dropped.
#[derive(Debug)]
pub enum SendError<T> {
    ReceiverDropped(T),
}

/// Error returned by a receive attempt: the sending half is gone and no
/// value was ever stored.
#[derive(Debug)]
pub enum RecvError {
    SenderDropped,
}

/// Shared state of a oneshot channel: at most one pending value and at
/// most one registered resumption handle.
pub struct Inner<T, W> {
    /// The buffer containing the message.
    pub data: Option<T>,
    /// The resumption handle registered by the receiver's latest poll.
    pub waker: Option<W>,
    /// Whether the `Receiver` was dropped.
    pub rx_dropped: bool,
    /// Whether the `Sender` was dropped.
    pub tx_dropped: bool,
}

impl<T, W> Inner<T, W> {
    /// The state after a successful send of `value`: the value is stored
    /// and the registered handle has been taken for invocation.
    pub open spec fn sent(self, value: T) -> Inner<T, W> {
        Inner { data: Some(value), waker: None, ..self }
    }

    /// The state after the stored value has been taken by a poll.
    pub open spec fn taken(self) -> Inner<T, W> {
        Inner { data: None, ..self }
    }

    /// The state after a poll that found nothing and left `handle` behind.
    pub open spec fn parked(self, handle: W) -> Inner<T, W> {
        Inner { waker: Some(handle), ..self }
    }

    /// The state after the receiving half has gone away.
    pub open spec fn rx_closed(self) -> Inner<T, W> {
        Inner { rx_dropped: true, ..self }
    }

    /// The state after the sending half has gone away, its handle taken
    /// for invocation.
    pub open spec fn tx_closed(self) -> Inner<T, W> {
        Inner { tx_dropped: true, waker: None, ..self }
    }
}

/// What one poll attempt returns in a given state, before any handle is
/// registered: the stored value wins, then the dropped-sender condition,
/// and otherwise the attempt suspends.
pub open spec fn poll_outcome<T, W>(s: Inner<T, W>) -> Poll<Result<T, RecvError>> {
    match s.data {
        Some(v) => Poll::Ready(Ok(v)),
        None => if s.tx_dropped {
            Poll::Ready(Err(RecvError::SenderDropped))
        } else {
            Poll::Pending
        },
    }
}

/// The sending half. `send` consumes it: a oneshot value is sent at most
/// once.
pub struct Sender;

/// The receiving half.
pub struct Receiver;

/// Create a connected pair of handles together with the fresh shared
/// state both of them drive.
pub fn channel<T, W>() -> (r: (Sender, Receiver, Inner<T, W>))
    ensures
        r.2.data is None,
        r.2.waker is None,
        !r.2.rx_dropped,
        !r.2.tx_dropped,
{
    let inner = Inner { data: None, waker: None, rx_dropped: false, tx_dropped: false };
    (Sender, Receiver, inner)
}

impl Sender {
    /// Store `value` for the receiver. On success the registered
    /// resumption handle, if any, is handed back so the caller can invoke
    /// it after releasing the state's lock. Fails if and only if the
    /// receiver was dropped, and then the value comes back inside the
    /// error.
    pub fn send<T, W>(self, inner: &mut Inner<T, W>, value: T) -> (r: (
        Result<(), SendError<T>>,
        Option<W>,
    ))
        ensures
            old(inner).rx_dropped ==> {
                &&& (r.0 matches Err(SendError::ReceiverDropped(v)) && v == value)
                &&& r.1 is None
                &&& *final(inner) == *old(inner)
            },
            !old(inner).rx_dropped ==> {
                &&& r.0 is Ok
                &&& r.1 == old(inner).waker
                &&& *final(inner) == old(inner).sent(value)
            },
    {
        if inner.rx_dropped {
            (Err(SendError::ReceiverDropped(value)), None)
        } else {
            inner.data = Some(value);
            let woken = inner.waker.take();
            (Ok(()), woken)
        }
    }

    /// Tear-down transition for a sending half that goes away: marks the
    /// state and hands back the receiver's handle, so the caller can wake
    /// it to observe the dropped-sender condition instead of hanging.
    pub fn disconnect<T, W>(self, inner: &mut Inner<T, W>) -> (woken: Option<W>)
        ensures
            *final(inner) == old(inner).tx_closed(),
            woken == old(inner).waker,
    {
        inner.tx_dropped = true;
        inner.waker.take()
    }
}

impl Receiver {
    /// One non-blocking receive attempt: take the stored value if one is
    /// present, report the dropped sender if no value can ever arrive, or
    /// register `handle` and suspend.
    pub fn poll<T, W>(&self, inner: &mut Inner<T, W>, handle: W) -> (r: Poll<
        Result<T, RecvError>,
    >)
        ensures
            r == poll_outcome(*old(inner)),
            old(inner).data is Some ==> *final(inner) == old(inner).taken(),
            old(inner).data is None && old(inner).tx_dropped ==> *final(inner) == *old(inner),
            old(inner).data is None && !old(inner).tx_dropped ==> *final(inner) == old(
                inner,
            ).parked(handle),
    {
        match inner.data.take() {
            Some(data) => Poll::Ready(Ok(data)),
            None => {
                if inner.tx_dropped {
                    Poll::Ready(Err(RecvError::SenderDropped))
                } else {
                    inner.waker = Some(handle);
                    Poll::Pending
                }
            },
        }
    }

    /// Tear-down transition for a receiving half that goes away: marks the
    /// state so that every later `send` fails and hands the value back to
    /// its caller.
    pub fn disconnect<T, W>(self, inner: &mut Inner<T, W>)
        ensures
            *final(inner) == old(inner).rx_closed(),
    {
        inner.rx_dropped = true;
    }
}

/// Oneshot delivers exactly once. While the receiver is attached, sending
/// `value` and then polling yields exactly `value`, and the state left
/// behind holds nothing to deliver a second time; polling with the sender
/// gone and nothing stored reports `SenderDropped` and can never yield a
/// value.
pub proof fn lemma_oneshot_exactly_once<T, W>(pre: Inner<T, W>, value: T)
    ensures
        poll_outcome(pre.sent(value)) == Poll::Ready(Result::<T, RecvError>::Ok(value)),
        pre.sent(value).taken().data is None,
        pre.data is None && pre.tx_dropped ==> poll_outcome::<T, W>(pre) == Poll::Ready(
            Result::<T, RecvError>::Err(RecvError::SenderDropped),
        ),
{
}

} // verus!
