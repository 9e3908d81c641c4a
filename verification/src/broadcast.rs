//! A channel that delivers an unbounded stream of values from many
//! producers to many consumers, each consumer seeing every value produced
//! after its subscription.
//!
//! All receivers read one shared history. A receiver's cursor
//! (`next_index_abs`) counts over every value ever accepted; the physical
//! buffer retains only the suffix of the history that some live receiver
//! has yet to read, and `clear_count` records how much of the front has
//! been trimmed away. A send trims first — using the pre-send cursors, so
//! a lagging receiver never loses a value — then appends, then hands back
//! every registered resumption handle for the caller to invoke once the
//! state's lock is released.

use crate::Poll;
use vstd::prelude::*;

verus! {

/// Error returned by `send`: no live receiver registration is left. The
/// value travels back to the caller inside the error instead of being
/// dropped.
#[derive(Debug)]
pub enum SendError<T> {
    ReceiverDropped(T),
}

/// One receiver's cursor as the contracts speak of it.
#[verifier::ext_equal]
pub ghost struct RxState<W> {
    /// The identity of the receiver handle owning this cursor.
    pub id: nat,
    /// Absolute index, over every value ever accepted, of the next value
    /// this receiver reads.
    pub next: nat,
    /// The resumption handle registered by this receiver's suspended poll.
    pub waker: Option<W>,
}

/// The channel state as the contracts speak of it.
#[verifier::ext_equal]
pub ghost struct State<T, W> {
    /// Every value the channel ever accepted, oldest first.
    pub hist: Seq<T>,
    /// How many of the oldest history entries have been trimmed from the
    /// physical buffer.
    pub cleared: nat,
    /// The number of senders not yet dropped.
    pub txs_left: nat,
    /// The cursors of the receivers not yet dropped.
    pub rxs: Seq<RxState<W>>,
    /// The identity the next receiver registration will get.
    pub next_id: nat,
}

/// The smallest cursor position among the given receivers; what every one
/// of them has read already may be trimmed.
pub open spec fn min_next<W>(rxs: Seq<RxState<W>>) -> nat
    decreases rxs.len(),
{
    if rxs.len() <= 1 {
        if rxs.len() == 0 {
            0
        } else {
            rxs[0].next
        }
    } else {
        let rest = min_next(rxs.drop_last());
        if rxs.last().next < rest {
            rxs.last().next
        } else {
            rest
        }
    }
}

/// The largest cursor position among the given receivers.
pub open spec fn max_next<W>(rxs: Seq<RxState<W>>) -> nat
    decreases rxs.len(),
{
    if rxs.len() <= 1 {
        if rxs.len() == 0 {
            0
        } else {
            rxs[0].next
        }
    } else {
        let rest = max_next(rxs.drop_last());
        if rxs.last().next > rest {
            rxs.last().next
        } else {
            rest
        }
    }
}

/// The registered resumption handles of the given receivers, in receiver
/// order.
pub open spec fn wakers_of<W>(rxs: Seq<RxState<W>>) -> Seq<W>
    decreases rxs.len(),
{
    if rxs.len() == 0 {
        Seq::empty()
    } else {
        wakers_of(rxs.drop_last()) + match rxs.last().waker {
            Some(w) => seq![w],
            None => Seq::empty(),
        }
    }
}

/// The same cursors with every registered handle taken for invocation.
pub open spec fn clear_wakers<W>(rxs: Seq<RxState<W>>) -> Seq<RxState<W>> {
    rxs.map_values(|m: RxState<W>| RxState { waker: None, ..m })
}

impl<T, W> State<T, W> {
    /// The values physically retained: the history minus its trimmed
    /// front.
    pub open spec fn buffer(self) -> Seq<T> {
        self.hist.skip(self.cleared as int)
    }

    /// Internal consistency: nothing still needed is trimmed, no cursor
    /// runs past the history, and registrations are distinct.
    pub open spec fn wf(self) -> bool {
        &&& self.cleared <= self.hist.len()
        &&& forall|i: int|
            0 <= i < self.rxs.len() ==> {
                &&& self.cleared <= (#[trigger] self.rxs[i]).next <= self.hist.len()
                &&& self.rxs[i].id < self.next_id
            }
        &&& forall|i: int, j: int|
            0 <= i < j < self.rxs.len() ==> (#[trigger] self.rxs[i]).id != (
            #[trigger] self.rxs[j]).id
    }

    /// Whether a live receiver with identity `id` is registered.
    pub open spec fn has_rx(self, id: nat) -> bool {
        exists|i: int| 0 <= i < self.rxs.len() && (#[trigger] self.rxs[i]).id == id
    }

    /// The position of the cursor registered under `id`.
    pub open spec fn rx_index(self, id: nat) -> int {
        choose|i: int| 0 <= i < self.rxs.len() && (#[trigger] self.rxs[i]).id == id
    }

    /// The state after a successful send of `value`: everything every
    /// receiver has read is trimmed (measured before the send, so a
    /// lagging receiver loses nothing), the value joins the history, and
    /// every registered handle has been taken for invocation.
    pub open spec fn sent(self, value: T) -> State<T, W> {
        State {
            hist: self.hist.push(value),
            cleared: min_next(self.rxs),
            rxs: clear_wakers(self.rxs),
            ..self
        }
    }

    /// The state after the receiver at position `i` read one value.
    pub open spec fn rx_taken(self, i: int) -> State<T, W> {
        State {
            rxs: self.rxs.update(i, RxState { next: self.rxs[i].next + 1, ..self.rxs[i] }),
            ..self
        }
    }

    /// The state after the receiver at position `i` suspended, leaving
    /// `handle` behind.
    pub open spec fn rx_parked(self, i: int, handle: W) -> State<T, W> {
        State {
            rxs: self.rxs.update(i, RxState { waker: Some(handle), ..self.rxs[i] }),
            ..self
        }
    }

    /// The state after a new receiver registered: it gets a fresh
    /// identity, and its cursor starts at the trimmed front — at "now",
    /// not at the beginning of history.
    pub open spec fn rx_cloned(self) -> State<T, W> {
        State {
            rxs: self.rxs.push(RxState { id: self.next_id, next: self.cleared, waker: None }),
            next_id: self.next_id + 1,
            ..self
        }
    }

    /// The state after the receiver at position `i` went away: its cursor
    /// no longer pins the buffer.
    pub open spec fn rx_closed(self, i: int) -> State<T, W> {
        State { rxs: self.rxs.remove(i), ..self }
    }

    /// The state after one more sender handle was created.
    pub open spec fn tx_cloned(self) -> State<T, W> {
        State { txs_left: self.txs_left + 1, ..self }
    }

    /// The state after one sender went away, every registered handle taken
    /// for invocation so each receiver can observe a possible
    /// end-of-stream.
    pub open spec fn tx_closed(self) -> State<T, W> {
        State { txs_left: (self.txs_left - 1) as nat, rxs: clear_wakers(self.rxs), ..self }
    }
}

/// What a poll by the receiver at position `i` returns in a given state,
/// before any handle is registered: the value at its cursor if the history
/// still grows past it, end-of-stream once no sender is left, and
/// otherwise the attempt suspends. The executable poll hands out a clone
/// of the history entry.
pub open spec fn poll_outcome_at<T, W>(s: State<T, W>, i: int) -> Poll<Option<T>> {
    if s.rxs[i].next < s.hist.len() {
        Poll::Ready(Some(s.hist[s.rxs[i].next as int]))
    } else if s.txs_left == 0 {
        Poll::Ready(None)
    } else {
        Poll::Pending
    }
}

/// One receiver's cursor and wake state.
pub struct RxMeta<W> {
    /// The identity of the receiver handle owning this entry.
    pub id: usize,
    /// The absolute index of the next message across all historical
    /// messages: `next_index_abs - clear_count` is the position in the
    /// physical buffer of the next message to be read.
    pub next_index_abs: usize,
    /// The resumption handle used to wake this receiver.
    pub waker: Option<W>,
}

/// The abstraction of one cursor entry.
pub open spec fn rx_view<W>(m: RxMeta<W>) -> RxState<W> {
    RxState { id: m.id as nat, next: m.next_index_abs as nat, waker: m.waker }
}

/// The abstraction of a cursor table.
pub open spec fn metas_view<W>(s: Seq<RxMeta<W>>) -> Seq<RxState<W>> {
    s.map_values(|m: RxMeta<W>| rx_view(m))
}

/// Shared state of a broadcast channel.
pub struct Inner<T, W> {
    /// The buffer containing the retained messages, oldest first.
    pub buffer: Vec<T>,
    /// How many messages have been read by everyone and trimmed so far.
    pub clear_count: usize,
    /// The number of created `Sender`s that are not yet dropped.
    pub txs_left: usize,
    /// The cursors of the created `Receiver`s that are not yet dropped.
    pub rxs_metas: Vec<RxMeta<W>>,
    /// The identity handed to the next receiver registration.
    pub next_rx_id: usize,
    /// Every value the channel ever accepted, oldest first.
    pub hist: Ghost<Seq<T>>,
}

impl<T, W> View for Inner<T, W> {
    type V = State<T, W>;

    open spec fn view(&self) -> State<T, W> {
        State {
            hist: self.hist@,
            cleared: self.clear_count as nat,
            txs_left: self.txs_left as nat,
            rxs: metas_view(self.rxs_metas@),
            next_id: self.next_rx_id as nat,
        }
    }
}

impl<T, W> Inner<T, W> {
    /// The physical buffer really is the untrimmed suffix of the history,
    /// and the abstract state is internally consistent.
    pub open spec fn wf(&self) -> bool {
        &&& self@.wf()
        &&& self.hist@.len() == self.clear_count + self.buffer@.len()
        &&& self.hist@.len() <= usize::MAX
        &&& self.buffer@ == self.hist@.skip(self.clear_count as int)
    }
}

/// A sending half; senders can be duplicated freely.
pub struct Sender;

/// A receiving half with its own independent cursor; receivers can be
/// duplicated freely, and a duplicate starts reading at the trimmed
/// front.
pub struct Receiver {
    /// Identifies this receiver's cursor in the shared state.
    pub id: usize,
}

/// Every cursor of `rxs` sits at least at `min_next(rxs)`, and some cursor
/// sits exactly there; symmetrically for `max_next`.
pub proof fn lemma_min_max_next<W>(rxs: Seq<RxState<W>>)
    requires
        rxs.len() > 0,
    ensures
        forall|i: int|
            0 <= i < rxs.len() ==> min_next(rxs) <= (#[trigger] rxs[i]).next <= max_next(rxs),
        exists|i: int| 0 <= i < rxs.len() && (#[trigger] rxs[i]).next == min_next(rxs),
        exists|i: int| 0 <= i < rxs.len() && (#[trigger] rxs[i]).next == max_next(rxs),
    decreases rxs.len(),
{
    if rxs.len() > 1 {
        lemma_min_max_next(rxs.drop_last());
        assert(forall|i: int|
            0 <= i < rxs.len() - 1 ==> rxs[i] == #[trigger] rxs.drop_last()[i]);
        let w = choose|i: int|
            0 <= i < rxs.drop_last().len() && (#[trigger] rxs.drop_last()[i]).next == min_next(
                rxs.drop_last(),
            );
        let x = choose|i: int|
            0 <= i < rxs.drop_last().len() && (#[trigger] rxs.drop_last()[i]).next == max_next(
                rxs.drop_last(),
            );
        if rxs.last().next < min_next(rxs.drop_last()) {
            assert(rxs[rxs.len() - 1].next == min_next(rxs));
        } else {
            assert(rxs[w].next == min_next(rxs));
        }
        if rxs.last().next > max_next(rxs.drop_last()) {
            assert(rxs[rxs.len() - 1].next == max_next(rxs));
        } else {
            assert(rxs[x].next == max_next(rxs));
        }
        assert forall|i: int|
            0 <= i < rxs.len() implies min_next(rxs) <= (#[trigger] rxs[i]).next <= max_next(
            rxs,
        ) by {
            if i < rxs.len() - 1 {
                assert(rxs.drop_last()[i] == rxs[i]);
            }
        }
    } else {
        assert(rxs[0].next == min_next(rxs));
        assert(rxs[0].next == max_next(rxs));
    }
}

/// `min_next` and `max_next` read only the cursor positions: two cursor
/// tables that agree pointwise on `next` agree on both.
pub proof fn lemma_min_max_next_congruent<W>(a: Seq<RxState<W>>, b: Seq<RxState<W>>)
    requires
        a.len() == b.len(),
        forall|i: int| 0 <= i < a.len() ==> (#[trigger] a[i]).next == (#[trigger] b[i]).next,
    ensures
        min_next(a) == min_next(b),
        max_next(a) == max_next(b),
    decreases a.len(),
{
    if a.len() > 1 {
        assert(forall|i: int|
            0 <= i < a.len() - 1 ==> (#[trigger] a.drop_last()[i]).next == (
            #[trigger] b.drop_last()[i]).next);
        lemma_min_max_next_congruent(a.drop_last(), b.drop_last());
    }
}

/// Find the position of the cursor registered under `id`.
fn find_rx<W>(metas: &Vec<RxMeta<W>>, id: usize) -> (r: Option<usize>)
    ensures
        match r {
            Some(i) => 0 <= i < metas@.len() && metas@[i as int].id == id,
            None => forall|j: int| 0 <= j < metas@.len() ==> (#[trigger] metas@[j]).id != id,
        },
{
    let mut i: usize = 0;
    while i < metas.len()
        invariant
            i <= metas@.len(),
            forall|j: int| 0 <= j < i ==> (#[trigger] metas@[j]).id != id,
        decreases metas@.len() - i,
    {
        if metas[i].id == id {
            return Some(i);
        }
        i += 1;
    }
    None
}

/// Take every registered resumption handle out of the cursor table,
/// preserving identities and positions.
fn take_wakers<W>(metas: &mut Vec<RxMeta<W>>) -> (out: Vec<W>)
    ensures
        out@ == wakers_of(metas_view(old(metas)@)),
        metas_view(final(metas)@) == clear_wakers(metas_view(old(metas)@)),
        final(metas)@.len() == old(metas)@.len(),
{
    let mut out: Vec<W> = Vec::new();
    let mut i: usize = 0;
    while i < metas.len()
        invariant
            i <= metas@.len(),
            metas@.len() == old(metas)@.len(),
            out@ == wakers_of(metas_view(old(metas)@.take(i as int))),
            forall|j: int| i <= j < metas@.len() ==> metas@[j] == old(metas)@[j],
            forall|j: int|
                0 <= j < i ==> #[trigger] metas@[j] == (RxMeta {
                    waker: None,
                    ..old(metas)@[j]
                }),
        decreases metas@.len() - i,
    {
        let mut tmp = RxMeta { id: 0, next_index_abs: 0, waker: None };
        metas.set_and_swap(i, &mut tmp);
        let RxMeta { id, next_index_abs, waker } = tmp;
        if let Some(w) = waker {
            out.push(w);
        }
        metas.set(i, RxMeta { id, next_index_abs, waker: None });
        proof {
            let v = metas_view(old(metas)@);
            assert(metas_view(old(metas)@.take(i + 1 as int)) =~= v.take(i + 1 as int));
            assert(metas_view(old(metas)@.take(i as int)) =~= v.take(i as int));
            assert(v.take(i + 1 as int).drop_last() =~= v.take(i as int));
            assert(v.take(i + 1 as int).last() == v[i as int]);
        }
        i += 1;
    }
    proof {
        assert(metas_view(old(metas)@.take(i as int)) =~= metas_view(old(metas)@));
        assert(metas_view(metas@) =~= clear_wakers(metas_view(old(metas)@)));
    }
    out
}

/// Create a connected `(Sender, Receiver)` pair together with the fresh
/// shared state both of them drive; the receiver is registered under
/// identity 0.
pub fn channel<T, W>() -> (r: (Sender, Receiver, Inner<T, W>))
    ensures
        r.2.wf(),
        r.2@ == (State::<T, W> {
            hist: Seq::empty(),
            cleared: 0,
            txs_left: 1,
            rxs: seq![RxState { id: 0, next: 0, waker: None }],
            next_id: 1,
        }),
        r.1.id == 0,
{
    let mut metas: Vec<RxMeta<W>> = Vec::new();
    metas.push(RxMeta { id: 0, next_index_abs: 0, waker: None });
    let inner = Inner {
        buffer: Vec::new(),
        clear_count: 0,
        txs_left: 1,
        rxs_metas: metas,
        next_rx_id: 1,
        hist: Ghost(Seq::empty()),
    };
    proof {
        assert(inner@.rxs =~= seq![RxState { id: 0 as nat, next: 0 as nat, waker: None::<W> }]);
        assert(inner@ =~= State::<T, W> {
            hist: Seq::empty(),
            cleared: 0,
            txs_left: 1,
            rxs: seq![RxState { id: 0, next: 0, waker: None }],
            next_id: 1,
        });
        assert(inner.buffer@ =~= inner.hist@.skip(0));
    }
    (Sender, Receiver { id: 0 }, inner)
}

impl Sender {
    /// Trim everything every live receiver has already read, append
    /// `value`, and hand back every registered resumption handle for the
    /// caller to invoke after releasing the state's lock. Fails if and
    /// only if no receiver registration is left, and then the value comes
    /// back inside the error. Never fails for lack of capacity.
    pub fn send<T, W>(&self, inner: &mut Inner<T, W>, value: T) -> (r: (
        Result<(), SendError<T>>,
        Vec<W>,
    ))
        requires
            old(inner).wf(),
            old(inner)@.hist.len() < usize::MAX,
        ensures
            final(inner).wf(),
            old(inner)@.rxs.len() == 0 ==> {
                &&& (r.0 matches Err(SendError::ReceiverDropped(v)) && v == value)
                &&& final(inner)@ == old(inner)@
                &&& r.1@ == Seq::<W>::empty()
            },
            old(inner)@.rxs.len() > 0 ==> {
                &&& r.0 is Ok
                &&& final(inner)@ == old(inner)@.sent(value)
                &&& r.1@ == wakers_of(old(inner)@.rxs)
            },
    {
        if inner.rxs_metas.len() == 0 {
            proof {
                assert(metas_view(inner.rxs_metas@) =~= Seq::<RxState<W>>::empty());
            }
            return (Err(SendError::ReceiverDropped(value)), Vec::new());
        }
        let ghost pre = *inner;
        // The smallest cursor over all live receivers: everything below it
        // has been read by everyone.
        let mut m: usize = inner.rxs_metas[0].next_index_abs;
        let mut i: usize = 1;
        proof {
            assert(metas_view(pre.rxs_metas@).take(1int) =~= seq![rx_view(pre.rxs_metas@[0])]);
        }
        while i < inner.rxs_metas.len()
            invariant
                1 <= i <= inner.rxs_metas@.len(),
                *inner == pre,
                pre.wf(),
                m as nat == min_next(metas_view(pre.rxs_metas@).take(i as int)),
            decreases inner.rxs_metas@.len() - i,
        {
            let n = inner.rxs_metas[i].next_index_abs;
            proof {
                let v = metas_view(pre.rxs_metas@);
                assert(v.take(i + 1 as int).drop_last() =~= v.take(i as int));
                assert(v.take(i + 1 as int).last() == v[i as int]);
            }
            if n < m {
                m = n;
            }
            i += 1;
        }
        proof {
            assert(metas_view(pre.rxs_metas@).take(pre.rxs_metas@.len() as int) =~= metas_view(
                pre.rxs_metas@,
            ));
            lemma_min_max_next(pre@.rxs);
        }
        // Trim the prefix that every receiver has consumed, measured
        // before this send, so nobody loses an unread value.
        let min_rx_processed = m - inner.clear_count;
        let mut j: usize = 0;
        while j < min_rx_processed
            invariant
                0 <= j <= min_rx_processed,
                min_rx_processed <= pre.buffer@.len(),
                inner.buffer@ == pre.buffer@.skip(j as int),
                inner.clear_count == pre.clear_count,
                inner.txs_left == pre.txs_left,
                inner.rxs_metas == pre.rxs_metas,
                inner.next_rx_id == pre.next_rx_id,
                inner.hist == pre.hist,
            decreases min_rx_processed - j,
        {
            inner.buffer.remove(0);
            proof {
                assert(pre.buffer@.skip(j as int).remove(0) =~= pre.buffer@.skip(j + 1 as int));
            }
            j += 1;
        }
        inner.clear_count = inner.clear_count + min_rx_processed;
        inner.buffer.push(value);
        proof {
            inner.hist@ = inner.hist@.push(value);
        }
        let woken = take_wakers(&mut inner.rxs_metas);
        proof {
            assert(inner.buffer@ =~= inner.hist@.skip(inner.clear_count as int));
            assert(inner@ =~= pre@.sent(value));
        }
        (Ok(()), woken)
    }

    /// Register one more sender handle.
    pub fn duplicate<T, W>(&self, inner: &mut Inner<T, W>) -> (tx: Sender)
        requires
            old(inner).wf(),
            old(inner).txs_left < usize::MAX,
        ensures
            final(inner).wf(),
            final(inner)@ == old(inner)@.tx_cloned(),
    {
        inner.txs_left = inner.txs_left + 1;
        proof {
            assert(inner@ =~= old(inner)@.tx_cloned());
        }
        Sender
    }

    /// Tear-down transition for a sender that goes away: one fewer sender
    /// is left, and every registered handle is handed back so the caller
    /// can wake each receiver to observe a possible end-of-stream.
    pub fn disconnect<T, W>(self, inner: &mut Inner<T, W>) -> (woken: Vec<W>)
        requires
            old(inner).wf(),
            old(inner).txs_left > 0,
        ensures
            final(inner).wf(),
            final(inner)@ == old(inner)@.tx_closed(),
            woken@ == wakers_of(old(inner)@.rxs),
    {
        inner.txs_left = inner.txs_left - 1;
        let woken = take_wakers(&mut inner.rxs_metas);
        proof {
            assert(inner@ =~= old(inner)@.tx_closed());
        }
        woken
    }
}

impl Receiver {
    /// One non-blocking attempt at this receiver's next stream element:
    /// hand out a clone of the value at its cursor if the history has
    /// grown past it, report end-of-stream if no sender can ever append
    /// another, or register `handle` under this receiver and suspend.
    pub fn poll_next<T: Clone, W>(&self, inner: &mut Inner<T, W>, handle: W) -> (r: Poll<
        Option<T>,
    >)
        requires
            old(inner).wf(),
            old(inner)@.has_rx(self.id as nat),
        ensures
            final(inner).wf(),
            ({
                let s = old(inner)@;
                let i = s.rx_index(self.id as nat);
                &&& (s.rxs[i].next < s.hist.len() ==> {
                    &&& (r matches Poll::Ready(Some(v)) && cloned(s.hist[s.rxs[i].next as int], v))
                    &&& final(inner)@ == s.rx_taken(i)
                })
                &&& (s.rxs[i].next == s.hist.len() && s.txs_left == 0 ==> r == Poll::<Option<T>>::Ready(None)
                    && final(inner)@ == s)
                &&& (s.rxs[i].next == s.hist.len() && s.txs_left > 0 ==> r is Pending && final(inner)@
                    == s.rx_parked(i, handle))
            }),
    {
        let ghost s = old(inner)@;
        let ghost gi = s.rx_index(self.id as nat);
        let idx = match find_rx(&inner.rxs_metas, self.id) {
            Some(idx) => idx,
            None => {
                proof {
                    assert(false);
                }
                0
            },
        };
        proof {
            assert(s.rxs[gi].id == self.id as nat && 0 <= gi < s.rxs.len());
            assert(s.rxs[idx as int].id == self.id as nat);
            assert(gi == idx as int);
        }
        let next = inner.rxs_metas[idx].next_index_abs;
        let next_index_rel = next - inner.clear_count;
        if next_index_rel < inner.buffer.len() {
            let v = inner.buffer[next_index_rel].clone();
            let mut tmp = RxMeta { id: 0, next_index_abs: 0, waker: None };
            inner.rxs_metas.set_and_swap(idx, &mut tmp);
            let RxMeta { id, next_index_abs, waker } = tmp;
            inner.rxs_metas.set(idx, RxMeta { id, next_index_abs: next_index_abs + 1, waker });
            proof {
                assert(metas_view(inner.rxs_metas@) =~= s.rx_taken(gi).rxs);
                assert(inner@ =~= s.rx_taken(gi));
            }
            Poll::Ready(Some(v))
        } else {
            if inner.txs_left == 0 {
                Poll::Ready(None)
            } else {
                let mut tmp = RxMeta { id: 0, next_index_abs: 0, waker: None };
                inner.rxs_metas.set_and_swap(idx, &mut tmp);
                let RxMeta { id, next_index_abs, waker: _stale } = tmp;
                inner.rxs_metas.set(idx, RxMeta { id, next_index_abs, waker: Some(handle) });
                proof {
                    assert(metas_view(inner.rxs_metas@) =~= s.rx_parked(gi, handle).rxs);
                    assert(inner@ =~= s.rx_parked(gi, handle));
                }
                Poll::Pending
            }
        }
    }

    /// Register a new receiver: it gets a fresh identity and starts
    /// reading at the trimmed front — from "now", never from the
    /// historical backlog that predates the channel's current buffer.
    pub fn duplicate<T, W>(&self, inner: &mut Inner<T, W>) -> (rx: Receiver)
        requires
            old(inner).wf(),
            old(inner).next_rx_id < usize::MAX,
        ensures
            final(inner).wf(),
            final(inner)@ == old(inner)@.rx_cloned(),
            rx.id as nat == old(inner)@.next_id,
    {
        let id = inner.next_rx_id;
        inner.next_rx_id = id + 1;
        inner.rxs_metas.push(RxMeta { id, next_index_abs: inner.clear_count, waker: None });
        proof {
            assert(metas_view(inner.rxs_metas@) =~= old(inner)@.rx_cloned().rxs);
            assert(inner@ =~= old(inner)@.rx_cloned());
        }
        Receiver { id }
    }

    /// Tear-down step for a receiver that goes away: its cursor is
    /// removed entirely, so it can no longer pin the buffer and leak
    /// memory. A receiver that was never registered leaves the state
    /// unchanged.
    pub fn disconnect<T, W>(self, inner: &mut Inner<T, W>)
        requires
            old(inner).wf(),
        ensures
            final(inner).wf(),
            old(inner)@.has_rx(self.id as nat) ==> final(inner)@ == old(inner)@.rx_closed(
                old(inner)@.rx_index(self.id as nat),
            ),
            !old(inner)@.has_rx(self.id as nat) ==> final(inner)@ == old(inner)@,
    {
        let ghost s = old(inner)@;
        match find_rx(&inner.rxs_metas, self.id) {
            Some(idx) => {
                proof {
                    let gi = s.rx_index(self.id as nat);
                    assert(s.rxs[idx as int].id == self.id as nat);
                    assert(s.has_rx(self.id as nat));
                    assert(s.rxs[gi].id == self.id as nat && 0 <= gi < s.rxs.len());
                    assert(gi == idx as int);
                }
                inner.rxs_metas.remove(idx);
                proof {
                    assert(metas_view(inner.rxs_metas@) =~= s.rxs.remove(idx as int));
                    assert(inner@ =~= s.rx_closed(idx as int));
                }
            },
            None => {
                proof {
                    assert(!s.has_rx(self.id as nat));
                }
            },
        }
    }
}

/// The state after the sends of `vs` were accepted one by one, oldest
/// first, in the total order the lock imposes.
pub open spec fn sent_all<T, W>(s: State<T, W>, vs: Seq<T>) -> State<T, W>
    decreases vs.len(),
{
    if vs.len() == 0 {
        s
    } else {
        sent_all(s, vs.drop_last()).sent(vs.last())
    }
}

/// The state after the receiver at position `i` took `k` values in a row.
pub open spec fn rx_drained<T, W>(s: State<T, W>, i: int, k: nat) -> State<T, W>
    decreases k,
{
    if k == 0 {
        s
    } else {
        rx_drained(s, i, (k - 1) as nat).rx_taken(i)
    }
}

/// The values the receiver at position `i` obtains by taking `k` values in
/// a row: the history entries from its cursor on, in history order.
pub open spec fn observed<T, W>(s: State<T, W>, i: int, k: nat) -> Seq<T> {
    s.hist.subrange(s.rxs[i].next as int, s.rxs[i].next + k as int)
}

/// A successful send preserves well-formedness.
pub proof fn lemma_sent_wf<T, W>(s: State<T, W>, value: T)
    requires
        s.wf(),
        s.rxs.len() > 0,
    ensures
        s.sent(value).wf(),
{
    lemma_min_max_next(s.rxs);
    let t = s.sent(value);
    assert forall|i: int|
        0 <= i < t.rxs.len() implies t.cleared <= (#[trigger] t.rxs[i]).next <= t.hist.len()
        && t.rxs[i].id < t.next_id by {
        assert(t.rxs[i] == (RxState { waker: None, ..s.rxs[i] }));
    }
    let w = choose|i: int| 0 <= i < s.rxs.len() && (#[trigger] s.rxs[i]).next == min_next(s.rxs);
    assert(t.cleared <= t.hist.len());
    assert forall|i: int, j: int|
        0 <= i < j < t.rxs.len() implies (#[trigger] t.rxs[i]).id != (#[trigger] t.rxs[j]).id by {
        assert(t.rxs[i] == (RxState { waker: None, ..s.rxs[i] }));
        assert(t.rxs[j] == (RxState { waker: None, ..s.rxs[j] }));
    }
}

/// Sends only append to the shared history and never move a cursor: after
/// the sends of `vs`, every receiver keeps its identity and its position,
/// and the history is extended by exactly `vs`, in order.
pub proof fn lemma_broadcast_sends_append<T, W>(s: State<T, W>, vs: Seq<T>)
    requires
        s.wf(),
        s.rxs.len() > 0,
    ensures
        sent_all(s, vs).wf(),
        sent_all(s, vs).hist == s.hist + vs,
        sent_all(s, vs).rxs.len() == s.rxs.len(),
        forall|i: int|
            0 <= i < s.rxs.len() ==> (#[trigger] sent_all(s, vs).rxs[i]).id == s.rxs[i].id
                && sent_all(s, vs).rxs[i].next == s.rxs[i].next,
        sent_all(s, vs).txs_left == s.txs_left,
        sent_all(s, vs).next_id == s.next_id,
        sent_all(s, vs).cleared >= s.cleared,
    decreases vs.len(),
{
    if vs.len() == 0 {
        assert(s.hist + vs =~= s.hist);
    } else {
        lemma_broadcast_sends_append(s, vs.drop_last());
        let p = sent_all(s, vs.drop_last());
        lemma_sent_wf(p, vs.last());
        lemma_min_max_next(p.rxs);
        assert(s.hist + vs =~= (s.hist + vs.drop_last()).push(vs.last()));
        assert forall|i: int|
            0 <= i < s.rxs.len() implies (#[trigger] sent_all(s, vs).rxs[i]).id == s.rxs[i].id
            && sent_all(s, vs).rxs[i].next == s.rxs[i].next by {
            assert(sent_all(s, vs).rxs[i] == (RxState { waker: None, ..p.rxs[i] }));
        }
        let w = choose|i: int|
            0 <= i < p.rxs.len() && (#[trigger] p.rxs[i]).next == min_next(p.rxs);
    }
}

/// Draining moves one cursor and nothing else: after the receiver at
/// position `i` takes `k` values, its cursor has advanced by `k`, every
/// other cursor and the history are untouched, and the `j`-th of those
/// polls returned precisely the history entry `j` places past where the
/// cursor began.
pub proof fn lemma_rx_drained<T, W>(s: State<T, W>, i: int, k: nat)
    requires
        s.wf(),
        0 <= i < s.rxs.len(),
        s.rxs[i].next + k <= s.hist.len(),
    ensures
        rx_drained(s, i, k).wf(),
        rx_drained(s, i, k).hist == s.hist,
        rx_drained(s, i, k).cleared == s.cleared,
        rx_drained(s, i, k).txs_left == s.txs_left,
        rx_drained(s, i, k).next_id == s.next_id,
        rx_drained(s, i, k).rxs.len() == s.rxs.len(),
        rx_drained(s, i, k).rxs[i].next == s.rxs[i].next + k,
        rx_drained(s, i, k).rxs[i].id == s.rxs[i].id,
        rx_drained(s, i, k).rxs[i].waker == s.rxs[i].waker,
        forall|j: int|
            0 <= j < s.rxs.len() && j != i ==> #[trigger] rx_drained(s, i, k).rxs[j] == s.rxs[j],
        forall|j: nat|
            j < k ==> #[trigger] poll_outcome_at(rx_drained(s, i, j as nat), i) == Poll::Ready(
                Some(s.hist[s.rxs[i].next + j as int]),
            ),
    decreases k,
{
    if k > 0 {
        lemma_rx_drained(s, i, (k - 1) as nat);
        let p = rx_drained(s, i, (k - 1) as nat);
        assert(p.rxs[i].next < p.hist.len());
        assert(poll_outcome_at(p, i) == Poll::<Option<T>>::Ready(
            Some(s.hist[s.rxs[i].next + k - 1]),
        ));
    }
}

/// All receivers read the one shared history: two receivers whose cursors
/// stand at the same position observe identical values for as long as they
/// take the same number of them. Cursors at different positions observe
/// subranges of the same history, so what they share they see in the same
/// order.
pub proof fn lemma_broadcast_receivers_agree<T, W>(s: State<T, W>, a: int, b: int, k: nat)
    requires
        s.wf(),
        0 <= a < s.rxs.len(),
        0 <= b < s.rxs.len(),
        s.rxs[a].next == s.rxs[b].next,
        s.rxs[a].next + k <= s.hist.len(),
    ensures
        observed(s, a, k) == observed(s, b, k),
{
}

/// Broadcast isolation: a receiver registered at a moment when nothing
/// unread is retained (the whole history already trimmed) observes exactly
/// the values sent after its registration, in send order — never any of
/// the historical sends that preceded it.
pub proof fn lemma_broadcast_isolation<T, W>(s: State<T, W>, vs: Seq<T>, k: nat)
    requires
        s.wf(),
        s.cleared == s.hist.len(),
        k <= vs.len(),
    ensures
        ({
            let c = s.rx_cloned();
            let after = sent_all(c, vs);
            let i = c.rxs.len() - 1;
            &&& after.rxs[i].next + k <= after.hist.len()
            &&& observed(after, i, k) == vs.take(k as int)
        }),
{
    let c = s.rx_cloned();
    assert forall|i: int, j: int|
        0 <= i < j < c.rxs.len() implies (#[trigger] c.rxs[i]).id != (#[trigger] c.rxs[j]).id by {
        if j < c.rxs.len() - 1 {
            assert(c.rxs[i] == s.rxs[i] && c.rxs[j] == s.rxs[j]);
        } else {
            assert(c.rxs[i] == s.rxs[i] && s.rxs[i].id < s.next_id);
        }
    }
    assert(c.wf());
    lemma_broadcast_sends_append(c, vs);
    let after = sent_all(c, vs);
    let i = c.rxs.len() - 1;
    assert(after.rxs[i].next == s.hist.len());
    assert(observed(after, i, k) =~= vs.take(k as int));
}

/// Trimming keeps the buffer tight: a send retains exactly the history
/// entries the slowest receiver has yet to read, plus the value just sent.
/// When the fastest receiver had already read everything, that is the
/// spread between the fastest and the slowest cursor plus one; and when
/// every receiver had caught up, the buffer afterwards holds nothing but
/// the value just sent.
pub proof fn lemma_broadcast_trimming<T, W>(s: State<T, W>, value: T)
    requires
        s.wf(),
        s.rxs.len() > 0,
    ensures
        s.sent(value).buffer().len() == s.hist.len() + 1 - min_next(s.rxs),
        max_next(s.rxs) == s.hist.len() ==> s.sent(value).buffer().len() == max_next(
            s.sent(value).rxs,
        ) - min_next(s.sent(value).rxs) + 1,
        min_next(s.rxs) == s.hist.len() ==> s.sent(value).buffer() == seq![value],
{
    lemma_min_max_next(s.rxs);
    let t = s.sent(value);
    assert(clear_wakers(s.rxs).len() == s.rxs.len());
    assert forall|i: int|
        0 <= i < s.rxs.len() implies (#[trigger] clear_wakers(s.rxs)[i]).next
        == (#[trigger] s.rxs[i]).next by {
        assert(clear_wakers(s.rxs)[i] == (RxState { waker: None, ..s.rxs[i] }));
    }
    lemma_min_max_next_congruent(s.rxs, clear_wakers(s.rxs));
    if min_next(s.rxs) == s.hist.len() {
        assert(t.buffer() =~= seq![value]);
    }
}

/// End-of-stream rather than a hang: once every sender is gone, a receiver
/// that drains the remaining history reaches a state whose next poll
/// reports that the stream is over.
pub proof fn lemma_broadcast_end_of_stream<T, W>(s: State<T, W>, i: int)
    requires
        s.wf(),
        0 <= i < s.rxs.len(),
        s.txs_left == 0,
    ensures
        ({
            let k = (s.hist.len() - s.rxs[i].next) as nat;
            poll_outcome_at(rx_drained(s, i, k), i) == Poll::<Option<T>>::Ready(None)
        }),
{
    lemma_rx_drained(s, i, (s.hist.len() - s.rxs[i].next) as nat);
}

} // verus!
