//! A growable, generic list that resides on the stack while it is small
//! and moves to the heap when it must grow larger.
//!
//! The list is generic over its element type and over the size of its
//! stack buffer. Its contracts speak of the abstract sequence of live
//! elements; slots of the stack buffer past `len` hold default values and
//! are not part of it.

use vstd::prelude::*;
use vstd::slice::slice_subrange;

verus! {

/// A growable, generic list that resides on the stack if it's small, but
/// is moved to the heap to grow larger if needed.
#[derive(Debug)]
pub enum LocalStorageVec<T, const N: usize> {
    Stack { buf: [T; N], len: usize },
    Heap(Vec<T>),
}

/// Relies on `core::array::from_fn`: an array whose `N` slots are each
/// filled by one call of `T::default()`.
#[verifier::external_body]
fn array_of_defaults<T: Default, const N: usize>() -> (r: [T; N])
    ensures
        forall|i: int| 0 <= i < N ==> call_ensures(T::default, (), #[trigger] r@[i]),
{
    core::array::from_fn(|_| T::default())
}

/// Relies on `core::mem::replace`: hands out the element at `i`, leaving
/// `value` in its place.
#[verifier::external_body]
fn replace_at<T, const N: usize>(buf: &mut [T; N], i: usize, value: T) -> (r: T)
    requires
        i < N,
    ensures
        r == old(buf)@[i as int],
        final(buf)@ == old(buf)@.update(i as int, value),
{
    core::mem::replace(&mut buf[i], value)
}

impl<T, const N: usize> View for LocalStorageVec<T, N> {
    type V = Seq<T>;

    /// The live elements: the used prefix of the stack buffer, or the
    /// whole heap vector.
    open spec fn view(&self) -> Seq<T> {
        match self {
            LocalStorageVec::Stack { buf, len } => buf@.take(*len as int),
            LocalStorageVec::Heap(data) => data@,
        }
    }
}

impl<T, const N: usize> LocalStorageVec<T, N> {
    /// A stack-resident list never claims more elements than its buffer
    /// holds.
    pub open spec fn wf(&self) -> bool {
        match self {
            LocalStorageVec::Stack { buf: _, len } => *len <= N,
            LocalStorageVec::Heap(_) => true,
        }
    }

    /// Whether the elements currently reside on the stack.
    pub open spec fn is_stack(&self) -> bool {
        self is Stack
    }
}

impl<T: Default, const N: usize> LocalStorageVec<T, N> {
    /// An empty list, resident on the stack.
    pub fn new() -> (r: Self)
        ensures
            r.wf(),
            r@ == Seq::<T>::empty(),
            r.is_stack(),
    {
        let r = LocalStorageVec::Stack { buf: array_of_defaults::<T, N>(), len: 0 };
        proof {
            assert(r@ =~= Seq::<T>::empty());
        }
        r
    }

    /// Append `e`. A full stack buffer first migrates to the heap; the
    /// stored sequence gains `e` at its end either way.
    pub fn push(&mut self, e: T)
        requires
            old(self).wf(),
        ensures
            final(self).wf(),
            final(self)@ == old(self)@.push(e),
            old(self).is_stack() && old(self)@.len() < N ==> final(self).is_stack(),
            old(self).is_stack() && old(self)@.len() == N ==> !final(self).is_stack(),
            !old(self).is_stack() ==> !final(self).is_stack(),
    {
        match self {
            LocalStorageVec::Stack { buf, len } => {
                if *len == N {
                    let ghost orig = buf@;
                    let mut data: Vec<T> = Vec::new();
                    let mut i: usize = 0;
                    while i < N
                        invariant
                            i <= N,
                            orig.len() == N,
                            data@ == orig.take(i as int),
                            buf@.len() == N,
                            forall|j: int| i <= j < N ==> buf@[j] == orig[j],
                        decreases N - i,
                    {
                        let v = replace_at(buf, i, T::default());
                        data.push(v);
                        proof {
                            assert(orig.take(i as int + 1) =~= orig.take(i as int).push(orig[i as int]));
                        }
                        i += 1;
                    }
                    data.push(e);
                    proof {
                        assert(orig.take(N as int) =~= orig);
                    }
                    *self = LocalStorageVec::Heap(data);
                    proof {
                        assert(self@ =~= old(self)@.push(e));
                    }
                } else {
                    let i = *len;
                    buf[i] = e;
                    *len = i + 1;
                    proof {
                        assert(self@ =~= old(self)@.push(e));
                    }
                }
            },
            LocalStorageVec::Heap(data) => {
                data.push(e);
            },
        }
    }

    /// Remove and return the last element, or `None` when the list is
    /// empty. The storage variant never changes.
    pub fn pop(&mut self) -> (r: Option<T>)
        requires
            old(self).wf(),
        ensures
            final(self).wf(),
            old(self)@.len() == 0 ==> r is None && final(self)@ == old(self)@,
            old(self)@.len() > 0 ==> {
                &&& (r matches Some(v) && v == old(self)@.last())
                &&& final(self)@ == old(self)@.drop_last()
            },
            final(self).is_stack() == old(self).is_stack(),
    {
        match self {
            LocalStorageVec::Stack { buf, len } => {
                if *len == 0 {
                    proof {
                        assert(self@ =~= old(self)@);
                    }
                    None
                } else {
                    let i = *len - 1;
                    let v = replace_at(buf, i, T::default());
                    *len = i;
                    proof {
                        assert(self@ =~= old(self)@.drop_last());
                    }
                    Some(v)
                }
            },
            LocalStorageVec::Heap(data) => {
                let r = data.pop();
                proof {
                    if old(self)@.len() > 0 {
                        assert(self@ =~= old(self)@.drop_last());
                    }
                }
                r
            },
        }
    }

    /// Insert `e` at position `index`, shifting everything from `index` on
    /// one place to the right. A full stack buffer first migrates to the
    /// heap.
    pub fn insert(&mut self, index: usize, e: T)
        requires
            old(self).wf(),
            index <= old(self)@.len(),
        ensures
            final(self).wf(),
            final(self)@ == old(self)@.insert(index as int, e),
    {
        match self {
            LocalStorageVec::Stack { buf, len } => {
                if *len == N {
                    let ghost orig = buf@;
                    let mut data: Vec<T> = Vec::new();
                    let mut i: usize = 0;
                    while i < index
                        invariant
                            i <= index <= N,
                            orig.len() == N,
                            data@ == orig.take(i as int),
                            buf@.len() == N,
                            forall|j: int| i <= j < N ==> buf@[j] == orig[j],
                        decreases index - i,
                    {
                        let v = replace_at(buf, i, T::default());
                        data.push(v);
                        proof {
                            assert(orig.take(i as int + 1) =~= orig.take(i as int).push(orig[i as int]));
                        }
                        i += 1;
                    }
                    data.push(e);
                    let mut i: usize = index;
                    while i < N
                        invariant
                            index <= i <= N,
                            orig.len() == N,
                            data@ == orig.take(index as int).push(e) + orig.subrange(
                                index as int,
                                i as int,
                            ),
                            buf@.len() == N,
                            forall|j: int| i <= j < N ==> buf@[j] == orig[j],
                        decreases N - i,
                    {
                        let v = replace_at(buf, i, T::default());
                        data.push(v);
                        proof {
                            assert(orig.subrange(index as int, i as int + 1) =~= orig.subrange(
                                index as int,
                                i as int,
                            ).push(orig[i as int]));
                            assert(data@ =~= orig.take(index as int).push(e) + orig.subrange(
                                index as int,
                                i as int + 1,
                            ));
                        }
                        i += 1;
                    }
                    *self = LocalStorageVec::Heap(data);
                    proof {
                        assert(orig.take(N as int) =~= orig);
                        assert(self@ =~= old(self)@.insert(index as int, e));
                    }
                } else {
                    let ghost orig = buf@;
                    let ghost n = *len as int;
                    let mut i: usize = *len;
                    while i > index
                        invariant
                            index <= i <= n < N,
                            orig.len() == N,
                            buf@.len() == N,
                            forall|j: int| 0 <= j < i ==> buf@[j] == orig[j],
                            forall|j: int| i < j <= n ==> buf@[j] == orig[j - 1],
                        decreases i - index,
                    {
                        let v = replace_at(buf, i - 1, T::default());
                        buf[i] = v;
                        i -= 1;
                    }
                    buf[index] = e;
                    let new_len = *len + 1;
                    *len = new_len;
                    proof {
                        assert(self@ =~= old(self)@.insert(index as int, e));
                    }
                }
            },
            LocalStorageVec::Heap(data) => {
                data.insert(index, e);
            },
        }
    }

    /// Remove and return the element at position `index`, shifting
    /// everything after it one place to the left. The storage variant
    /// never changes.
    pub fn remove(&mut self, index: usize) -> (r: T)
        requires
            old(self).wf(),
            index < old(self)@.len(),
        ensures
            final(self).wf(),
            r == old(self)@[index as int],
            final(self)@ == old(self)@.remove(index as int),
            final(self).is_stack() == old(self).is_stack(),
    {
        match self {
            LocalStorageVec::Stack { buf, len } => {
                let ghost orig = buf@;
                let ghost n = *len as int;
                let e = replace_at(buf, index, T::default());
                let mut i: usize = index;
                while i < *len - 1
                    invariant
                        index <= i < n <= N,
                        *len == n,
                        orig.len() == N,
                        buf@.len() == N,
                        forall|j: int| 0 <= j < index ==> buf@[j] == orig[j],
                        forall|j: int| index <= j < i ==> buf@[j] == orig[j + 1],
                        forall|j: int| i < j < N ==> buf@[j] == orig[j],
                    decreases n - i,
                {
                    let v = replace_at(buf, i + 1, T::default());
                    buf[i] = v;
                    i += 1;
                }
                let new_len = *len - 1;
                *len = new_len;
                proof {
                    assert(self@ =~= old(self)@.remove(index as int));
                }
                e
            },
            LocalStorageVec::Heap(data) => data.remove(index),
        }
    }
}

impl<T, const N: usize> LocalStorageVec<T, N> {
    /// The number of live elements.
    pub fn len(&self) -> (r: usize)
        requires
            self.wf(),
        ensures
            r == self@.len(),
    {
        match self {
            LocalStorageVec::Stack { buf: _, len } => *len,
            LocalStorageVec::Heap(data) => data.len(),
        }
    }

    /// Forget every element. The storage variant never changes.
    pub fn clear(&mut self)
        requires
            old(self).wf(),
        ensures
            final(self).wf(),
            final(self)@ == Seq::<T>::empty(),
            final(self).is_stack() == old(self).is_stack(),
    {
        match self {
            LocalStorageVec::Stack { buf: _, len } => {
                *len = 0;
                proof {
                    assert(self@ =~= Seq::<T>::empty());
                }
            },
            LocalStorageVec::Heap(data) => {
                data.clear();
            },
        }
    }

    /// The live elements as one borrowed slice.
    pub fn as_ref(&self) -> (r: &[T])
        requires
            self.wf(),
        ensures
            r@ == self@,
    {
        match self {
            LocalStorageVec::Stack { buf, len } => slice_subrange(buf.as_slice(), 0, *len),
            LocalStorageVec::Heap(data) => data.as_slice(),
        }
    }

    /// A borrowing cursor over the live elements, leaving the list intact.
    pub fn iter(&self) -> (r: LocalStorageVecBorrowIter<'_, T, N>)
        requires
            self.wf(),
        ensures
            r.vec == self,
            r.counter == 0,
    {
        LocalStorageVecBorrowIter { vec: self, counter: 0 }
    }
}

impl<T, const N: usize> From<Vec<T>> for LocalStorageVec<T, N> {
    /// Adopt a heap vector as it stands.
    fn from(value: Vec<T>) -> (r: Self) {
        LocalStorageVec::Heap(value)
    }
}

impl<T, const N: usize> vstd::std_specs::convert::FromSpecImpl<Vec<T>> for LocalStorageVec<T, N> {
    open spec fn obeys_from_spec() -> bool {
        true
    }

    open spec fn from_spec(value: Vec<T>) -> Self {
        LocalStorageVec::Heap(value)
    }
}

impl<T: Default, const N: usize> LocalStorageVec<T, N> {
    /// Adopt the elements of an array: onto the stack when they fit in the
    /// buffer, onto the heap otherwise.
    pub fn from_array<const M: usize>(array: [T; M]) -> (r: Self)
        ensures
            r.wf(),
            r@ == array@,
            r.is_stack() <==> M <= N,
    {
        let mut array = array;
        if M <= N {
            let mut buf = array_of_defaults::<T, N>();
            let ghost orig = array@;
            let mut i: usize = 0;
            while i < M
                invariant
                    i <= M <= N,
                    orig.len() == M,
                    buf@.len() == N,
                    array@.len() == M,
                    forall|j: int| 0 <= j < i ==> buf@[j] == orig[j],
                    forall|j: int| i <= j < M ==> array@[j] == orig[j],
                decreases M - i,
            {
                let v = replace_at(&mut array, i, T::default());
                buf[i] = v;
                i += 1;
            }
            let r = LocalStorageVec::Stack { buf, len: M };
            proof {
                assert(r@ =~= orig);
            }
            r
        } else {
            let ghost orig = array@;
            let mut data: Vec<T> = Vec::new();
            let mut i: usize = 0;
            while i < M
                invariant
                    i <= M,
                    orig.len() == M,
                    array@.len() == M,
                    data@ == orig.take(i as int),
                    forall|j: int| i <= j < M ==> array@[j] == orig[j],
                decreases M - i,
            {
                let v = replace_at(&mut array, i, T::default());
                data.push(v);
                proof {
                    assert(orig.take(i as int + 1) =~= orig.take(i as int).push(orig[i as int]));
                }
                i += 1;
            }
            proof {
                assert(orig.take(M as int) =~= orig);
            }
            LocalStorageVec::Heap(data)
        }
    }
}

impl<T: Default, const N: usize, const M: usize> From<[T; M]> for LocalStorageVec<T, N> {
    /// Adopt the elements of an array: onto the stack when they fit in the
    /// buffer, onto the heap otherwise.
    fn from(array: [T; M]) -> (r: Self) {
        Self::from_array(array)
    }
}

// The exact result of adopting an array cannot be a spec-level function of
// the array alone: the unused stack slots carry whatever `T::default()`
// produced. Callers that need the contract use `from_array`, whose
// `ensures` pins the sequence of live elements.
impl<T: Default, const N: usize, const M: usize> vstd::std_specs::convert::FromSpecImpl<[T; M]> for LocalStorageVec<T, N> {
    open spec fn obeys_from_spec() -> bool {
        false
    }

    open spec fn from_spec(array: [T; M]) -> Self {
        arbitrary()
    }
}

/// An owning cursor: hands the elements out one by one, oldest position
/// first, consuming the list it was made from.
#[derive(Debug)]
pub struct LocalStorageVecIter<T, const N: usize> {
    /// The list being consumed; positions before `counter` already handed
    /// out.
    pub vec: LocalStorageVec<T, N>,
    /// The position of the next element to hand out.
    pub counter: usize,
}

impl<T, const N: usize> LocalStorageVecIter<T, N> {
    /// The cursor never points past the elements.
    pub open spec fn wf(&self) -> bool {
        self.vec.wf() && self.counter <= self.vec@.len()
    }

    /// The elements not yet handed out.
    pub open spec fn remaining(&self) -> Seq<T> {
        self.vec@.skip(self.counter as int)
    }
}

impl<T: Default, const N: usize> LocalStorageVecIter<T, N> {
    /// Hand out the next element, or `None` once every element is gone.
    pub fn next(&mut self) -> (r: Option<T>)
        requires
            old(self).wf(),
        ensures
            final(self).wf(),
            old(self).remaining().len() == 0 ==> r is None && final(self).remaining()
                == old(self).remaining(),
            old(self).remaining().len() > 0 ==> {
                &&& (r matches Some(v) && v == old(self).remaining()[0])
                &&& final(self).remaining() == old(self).remaining().skip(1)
            },
    {
        match &mut self.vec {
            LocalStorageVec::Stack { buf, len } => {
                if self.counter == *len {
                    None
                } else {
                    let i = self.counter;
                    let e = replace_at(buf, i, T::default());
                    self.counter = i + 1;
                    proof {
                        assert(self.remaining() =~= old(self).remaining().skip(1));
                    }
                    Some(e)
                }
            },
            LocalStorageVec::Heap(data) => {
                if self.counter == data.len() {
                    None
                } else {
                    let i = self.counter;
                    let mut e = T::default();
                    data.set_and_swap(i, &mut e);
                    self.counter = i + 1;
                    proof {
                        assert(self.remaining() =~= old(self).remaining().skip(1));
                    }
                    Some(e)
                }
            },
        }
    }
}

impl<T: Default, const N: usize> LocalStorageVec<T, N> {
    /// An owning cursor over the elements, consuming the list.
    pub fn into_iter(self) -> (r: LocalStorageVecIter<T, N>)
        requires
            self.wf(),
        ensures
            r.wf(),
            r.remaining() == self@,
    {
        let r = LocalStorageVecIter { vec: self, counter: 0 };
        proof {
            assert(r.remaining() =~= r.vec@);
        }
        r
    }
}

/// A borrowing cursor: hands out references to the elements one by one,
/// oldest position first, leaving the list intact.
pub struct LocalStorageVecBorrowIter<'a, T, const N: usize> {
    /// The list being read.
    pub vec: &'a LocalStorageVec<T, N>,
    /// The position of the next element to hand out.
    pub counter: usize,
}

impl<'a, T, const N: usize> LocalStorageVecBorrowIter<'a, T, N> {
    /// The cursor never points past the elements.
    pub open spec fn wf(&self) -> bool {
        self.vec.wf() && self.counter <= self.vec@.len()
    }

    /// The elements not yet handed out.
    pub open spec fn remaining(&self) -> Seq<T> {
        self.vec@.skip(self.counter as int)
    }

    /// Hand out a reference to the next element, or `None` once every
    /// element was visited.
    pub fn next(&mut self) -> (r: Option<&'a T>)
        requires
            old(self).wf(),
        ensures
            final(self).wf(),
            old(self).remaining().len() == 0 ==> r is None && final(self).remaining()
                == old(self).remaining(),
            old(self).remaining().len() > 0 ==> {
                &&& (r matches Some(v) && *v == old(self).remaining()[0])
                &&& final(self).remaining() == old(self).remaining().skip(1)
            },
    {
        match self.vec {
            LocalStorageVec::Stack { buf, len } => {
                if self.counter == *len {
                    None
                } else {
                    let i = self.counter;
                    let e = &buf[i];
                    self.counter = i + 1;
                    proof {
                        assert(self.remaining() =~= old(self).remaining().skip(1));
                    }
                    Some(e)
                }
            },
            LocalStorageVec::Heap(data) => {
                if self.counter == data.len() {
                    None
                } else {
                    let i = self.counter;
                    let e = &data[i];
                    self.counter = i + 1;
                    proof {
                        assert(self.remaining() =~= old(self).remaining().skip(1));
                    }
                    Some(e)
                }
            },
        }
    }
}

} // verus!
