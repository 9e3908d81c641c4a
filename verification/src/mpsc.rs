//! A channel that delivers an unbounded first-in-first-out stream of
//! values from many producers to one consumer.
//!
//! The shared [`Inner`] state serializes every mutation (the lock's total
//! order); its abstract [`State`] records both the values already taken by
//! the consumer and those still pending, so the contracts can say exactly
//! which value each poll delivers. Handles that go away must run their
//! `disconnect` transition, the explicit counterpart of a destructor.

use crate::Poll;
use vstd::prelude::*;

verus! {

/// Error returned by `send`: the receiving half is gone. The value travels
/// back to the caller inside the error instead of being dropped.
#[derive(Debug)]
pub enum SendError<T> {
    ReceiverDropped(T),
}

/// The channel state as the contracts speak of it: every value the channel
/// ever accepted, split into the delivered and the pending part, plus the
/// liveness bookkeeping.
#[verifier::ext_equal]
pub ghost struct State<T, W> {
    /// Values the consumer has already taken, oldest first.
    pub received: Seq<T>,
    /// Values accepted but not yet taken, oldest first.
    pub pending: Seq<T>,
    /// The resumption handle registered by a suspended poll.
    pub waker: Option<W>,
    /// Whether the receiver was dropped.
    pub rx_dropped: bool,
    /// The number of senders not yet dropped.
    pub txs_left: nat,
}

impl<T, W> State<T, W> {
    /// Every value the channel ever accepted, in acceptance order.
    pub open spec fn history(self) -> Seq<T> {
        self.received + self.pending
    }

    /// The state after a successful send of `value`: the value joins the
    /// tail of the pending queue and the registered handle has been taken
    /// for invocation.
    pub open spec fn sent(self, value: T) -> State<T, W> {
        State { pending: self.pending.push(value), waker: None, ..self }
    }

    /// The state after a poll took the oldest pending value.
    pub open spec fn taken(self) -> State<T, W> {
        State { received: self.received.push(self.pending[0]), pending: self.pending.skip(1), ..self }
    }

    /// The state after a poll that found nothing and left `handle` behind.
    pub open spec fn parked(self, handle: W) -> State<T, W> {
        State { waker: Some(handle), ..self }
    }

    /// The state after the receiver has gone away.
    pub open spec fn rx_closed(self) -> State<T, W> {
        State { rx_dropped: true, ..self }
    }

    /// The state after one more sender handle was created.
    pub open spec fn tx_cloned(self) -> State<T, W> {
        State { txs_left: self.txs_left + 1, ..self }
    }

    /// The state after one sender went away, its handle taken for
    /// invocation.
    pub open spec fn tx_closed(self) -> State<T, W> {
        State { txs_left: (self.txs_left - 1) as nat, waker: None, ..self }
    }
}

/// What one poll attempt returns in a given state, before any handle is
/// registered: the oldest pending value wins, then end-of-stream once no
/// sender is left, and otherwise the attempt suspends.
pub open spec fn poll_outcome<T, W>(s: State<T, W>) -> Poll<Option<T>> {
    if s.pending.len() > 0 {
        Poll::Ready(Some(s.pending[0]))
    } else if s.txs_left == 0 {
        Poll::Ready(None)
    } else {
        Poll::Pending
    }
}

/// Shared state of an mpsc channel.
pub struct Inner<T, W> {
    /// The buffer containing the messages, oldest first.
    pub buffer: Vec<T>,
    /// The resumption handle registered by the receiver's latest poll.
    pub waker: Option<W>,
    /// Whether the `Receiver` was dropped.
    pub rx_dropped: bool,
    /// The number of created `Sender`s that are not yet dropped.
    pub txs_left: u32,
    /// Every value already delivered to the consumer, oldest first.
    pub received: Ghost<Seq<T>>,
}

impl<T, W> View for Inner<T, W> {
    type V = State<T, W>;

    open spec fn view(&self) -> State<T, W> {
        State {
            received: self.received@,
            pending: self.buffer@,
            waker: self.waker,
            rx_dropped: self.rx_dropped,
            txs_left: self.txs_left as nat,
        }
    }
}

/// A sending half; senders can be duplicated freely.
pub struct Sender;

/// The single receiving half.
pub struct Receiver;

/// Create a connected `(Sender, Receiver)` pair together with the fresh
/// shared state both of them drive.
pub fn channel<T, W>() -> (r: (Sender, Receiver, Inner<T, W>))
    ensures
        r.2@ == (State::<T, W> {
            received: Seq::empty(),
            pending: Seq::empty(),
            waker: None,
            rx_dropped: false,
            txs_left: 1,
        }),
{
    let inner = Inner {
        buffer: Vec::new(),
        waker: None,
        rx_dropped: false,
        txs_left: 1,
        received: Ghost(Seq::empty()),
    };
    proof {
        assert(inner@ =~= State::<T, W> {
            received: Seq::empty(),
            pending: Seq::empty(),
            waker: None,
            rx_dropped: false,
            txs_left: 1,
        });
    }
    (Sender, Receiver, inner)
}

impl Sender {
    /// Append `value` to the tail of the queue. On success the registered
    /// resumption handle, if any, is handed back so the caller can invoke
    /// it after releasing the state's lock. Fails if and only if the
    /// receiver was dropped, and then the value comes back inside the
    /// error. Never fails for lack of capacity.
    pub fn send<T, W>(&self, inner: &mut Inner<T, W>, value: T) -> (r: (
        Result<(), SendError<T>>,
        Option<W>,
    ))
        ensures
            old(inner)@.rx_dropped ==> {
                &&& (r.0 matches Err(SendError::ReceiverDropped(v)) && v == value)
                &&& r.1 is None
                &&& final(inner)@ == old(inner)@
            },
            !old(inner)@.rx_dropped ==> {
                &&& r.0 is Ok
                &&& r.1 == old(inner)@.waker
                &&& final(inner)@ == old(inner)@.sent(value)
            },
    {
        if inner.rx_dropped {
            (Err(SendError::ReceiverDropped(value)), None)
        } else {
            inner.buffer.push(value);
            let woken = inner.waker.take();
            proof {
                assert(inner@ =~= old(inner)@.sent(value));
            }
            (Ok(()), woken)
        }
    }

    /// Register one more sender handle.
    pub fn duplicate<T, W>(&self, inner: &mut Inner<T, W>) -> (tx: Sender)
        requires
            old(inner).txs_left < u32::MAX,
        ensures
            final(inner)@ == old(inner)@.tx_cloned(),
    {
        inner.txs_left = inner.txs_left + 1;
        proof {
            assert(inner@ =~= old(inner)@.tx_cloned());
        }
        Sender
    }

    /// Tear-down transition for a sender that goes away: one fewer sender
    /// is left, and the receiver's handle is handed back so the caller can
    /// wake it to observe a possible end-of-stream.
    pub fn disconnect<T, W>(self, inner: &mut Inner<T, W>) -> (woken: Option<W>)
        requires
            old(inner).txs_left > 0,
        ensures
            final(inner)@ == old(inner)@.tx_closed(),
            woken == old(inner)@.waker,
    {
        inner.txs_left = inner.txs_left - 1;
        let woken = inner.waker.take();
        proof {
            assert(inner@ =~= old(inner)@.tx_closed());
        }
        woken
    }
}

impl Receiver {
    /// One non-blocking attempt at the next stream element: take the
    /// oldest pending value if one is present, report end-of-stream if no
    /// sender can ever append another, or register `handle` and suspend.
    pub fn poll_next<T, W>(&self, inner: &mut Inner<T, W>, handle: W) -> (r: Poll<Option<T>>)
        ensures
            r == poll_outcome(old(inner)@),
            old(inner)@.pending.len() > 0 ==> final(inner)@ == old(inner)@.taken(),
            old(inner)@.pending.len() == 0 && old(inner)@.txs_left == 0 ==> final(inner)@ == old(
                inner,
            )@,
            old(inner)@.pending.len() == 0 && old(inner)@.txs_left > 0 ==> final(inner)@ == old(
                inner,
            )@.parked(handle),
    {
        if inner.buffer.len() > 0 {
            let v = inner.buffer.remove(0);
            proof {
                inner.received@ = inner.received@.push(v);
                assert(inner.buffer@ =~= old(inner).buffer@.skip(1));
                assert(inner@ =~= old(inner)@.taken());
            }
            Poll::Ready(Some(v))
        } else {
            if inner.txs_left == 0 {
                Poll::Ready(None)
            } else {
                inner.waker = Some(handle);
                proof {
                    assert(inner@ =~= old(inner)@.parked(handle));
                }
                Poll::Pending
            }
        }
    }

    /// Tear-down transition for the receiver: marks the state so that
    /// every later `send` fails and hands the value back to its caller.
    pub fn disconnect<T, W>(self, inner: &mut Inner<T, W>)
        ensures
            final(inner)@ == old(inner)@.rx_closed(),
    {
        inner.rx_dropped = true;
        proof {
            assert(inner@ =~= old(inner)@.rx_closed());
        }
    }
}

/// The state after the sends of `vs` were accepted one by one, oldest
/// first, in the total order the lock imposes.
pub open spec fn sent_all<T, W>(s: State<T, W>, vs: Seq<T>) -> State<T, W>
    decreases vs.len(),
{
    if vs.len() == 0 {
        s
    } else {
        sent_all(s, vs.drop_last()).sent(vs.last())
    }
}

/// The state after `k` consecutive successful polls.
pub open spec fn drained<T, W>(s: State<T, W>, k: nat) -> State<T, W>
    decreases k,
{
    if k == 0 {
        s
    } else {
        drained(s, (k - 1) as nat).taken()
    }
}

/// Sends only append: accepting the sends of `vs` extends the pending
/// queue by exactly `vs`, in order, and touches nothing the consumer has
/// already taken.
pub proof fn lemma_mpsc_sends_append<T, W>(s: State<T, W>, vs: Seq<T>)
    ensures
        sent_all(s, vs).pending == s.pending + vs,
        sent_all(s, vs).received == s.received,
        sent_all(s, vs).rx_dropped == s.rx_dropped,
        sent_all(s, vs).txs_left == s.txs_left,
    decreases vs.len(),
{
    if vs.len() == 0 {
        assert(s.pending + vs =~= s.pending);
    } else {
        lemma_mpsc_sends_append(s, vs.drop_last());
        assert(s.pending + vs =~= (s.pending + vs.drop_last()).push(vs.last()));
    }
}

/// First-in-first-out delivery: after `k` successful polls the consumer
/// has taken exactly the `k` oldest pending values, in order, and the
/// overall acceptance history is untouched.
pub proof fn lemma_mpsc_fifo<T, W>(s: State<T, W>, k: nat)
    requires
        k <= s.pending.len(),
    ensures
        drained(s, k).received == s.received + s.pending.take(k as int),
        drained(s, k).pending == s.pending.skip(k as int),
        drained(s, k).history() == s.history(),
        drained(s, k).rx_dropped == s.rx_dropped,
        drained(s, k).txs_left == s.txs_left,
    decreases k,
{
    if k == 0 {
        assert(s.received + s.pending.take(0) =~= s.received);
        assert(s.pending.skip(0) =~= s.pending);
    } else {
        lemma_mpsc_fifo(s, (k - 1) as nat);
        let prev = drained(s, (k - 1) as nat);
        assert(prev.pending[0] == s.pending[k - 1]);
        assert(prev.received.push(s.pending[k - 1]) =~= s.received + s.pending.take(k as int));
        assert(prev.pending.skip(1) =~= s.pending.skip(k as int));
        assert(drained(s, k).history() =~= s.history());
    }
}

/// The headline ordering guarantee: any interleaving of producers whose
/// sends are accepted as the sequence `vs` on a fresh channel, followed by
/// `vs.len()` polls, delivers exactly `vs`, in acceptance order.
pub proof fn lemma_mpsc_delivers_in_send_order<T, W>(init: State<T, W>, vs: Seq<T>)
    requires
        init.received.len() == 0,
        init.pending.len() == 0,
    ensures
        drained(sent_all(init, vs), vs.len()).received == vs,
        drained(sent_all(init, vs), vs.len()).pending.len() == 0,
{
    lemma_mpsc_sends_append(init, vs);
    lemma_mpsc_fifo(sent_all(init, vs), vs.len());
    assert(init.pending + vs =~= vs);
    assert(init.received + vs.take(vs.len() as int) =~= vs);
    assert(vs.skip(vs.len() as int) =~= Seq::<T>::empty());
}

/// End-of-stream rather than a hang: once every sender is gone, draining
/// whatever is still pending ends in a state whose next poll reports that
/// the stream is over, and polling changes nothing thereafter.
pub proof fn lemma_mpsc_end_of_stream<T, W>(s: State<T, W>)
    requires
        s.txs_left == 0,
    ensures
        poll_outcome(drained(s, s.pending.len())) == Poll::<Option<T>>::Ready(None),
{
    lemma_mpsc_fifo(s, s.pending.len());
    assert(s.pending.skip(s.pending.len() as int) =~= Seq::<T>::empty());
}

} // verus!
