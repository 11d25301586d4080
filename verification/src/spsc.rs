//! The bounded ring buffer behind each shard: a fixed-capacity FIFO with a
//! push end and a pop end.
//!
//! One slot is kept free, so a ring of capacity `c` holds at most `c - 1`
//! items: the ring is empty exactly when `head == tail`, and full exactly
//! when advancing `tail` by one slot would land on `head`.

use vstd::prelude::*;

verus! {

/// The fixed slot count of every shard ring in the live pipeline.
pub const QUEUE_SIZE: usize = 256 * 1024;

/// The ring itself: a fixed-size slot array, a `head` advanced only by pops
/// and a `tail` advanced only by pushes.
pub struct Buffer<T> {
    store: Vec<Option<T>>,
    capacity: usize,
    head: usize,
    tail: usize,
}

impl<T> View for Buffer<T> {
    type V = Seq<T>;

    closed spec fn view(&self) -> Seq<T> {
        Seq::new(self.spec_len() as nat, |k: int| self.store@[self.spec_slot(k)]->0)
    }
}

impl<T> Buffer<T> {
    /// Number of items queued.
    pub closed spec fn spec_len(&self) -> int {
        if self.tail >= self.head {
            self.tail - self.head
        } else {
            self.tail + self.capacity - self.head
        }
    }

    /// The slot that holds the `k`-th queued item.
    closed spec fn spec_slot(&self, k: int) -> int {
        if self.head + k < self.capacity {
            self.head + k
        } else {
            self.head + k - self.capacity
        }
    }

    /// The fixed slot count of the ring.
    pub closed spec fn spec_capacity(&self) -> int {
        self.capacity as int
    }

    /// The consumer cursor.
    pub closed spec fn spec_head(&self) -> int {
        self.head as int
    }

    /// The producer cursor.
    pub closed spec fn spec_tail(&self) -> int {
        self.tail as int
    }

    /// The ring's invariant: indices in range, storage of the fixed size,
    /// and every queued slot occupied.
    pub closed spec fn wf(&self) -> bool {
        &&& self.store.len() == self.capacity
        &&& self.capacity >= 2
        &&& self.head < self.capacity
        &&& self.tail < self.capacity
        &&& forall|k: int| 0 <= k < self.spec_len() ==> self.store@[self.spec_slot(k)] is Some
    }

    /// Head and tail coincide exactly on an empty ring.
    pub proof fn lemma_empty_iff_head_eq_tail(&self)
        requires
            self.wf(),
        ensures
            self@.len() == 0 <==> self.spec_head() == self.spec_tail(),
    {
    }

    /// Creates a ring with `capacity` slots, all free.
    pub fn new(capacity: usize) -> (r: Buffer<T>)
        requires
            capacity >= 2,
        ensures
            r.wf(),
            r@ == Seq::<T>::empty(),
            r.spec_capacity() == capacity,
    {
        let mut store: Vec<Option<T>> = Vec::new();
        let mut i: usize = 0;
        while i < capacity
            invariant
                i <= capacity,
                store@.len() == i,
            decreases capacity - i,
        {
            store.push(None);
            i = i + 1;
        }
        let r = Buffer { store, capacity, head: 0, tail: 0 };
        proof {
            assert(r@ =~= Seq::<T>::empty());
        }
        r
    }

    /// Maps a running index onto a slot index.
    pub fn to_ring(&self, i: usize) -> (r: usize)
        requires
            self.wf(),
        ensures
            r == i as int % self.spec_capacity(),
    {
        i % self.capacity
    }

    /// Whether a push is possible: the ring is not full.
    pub fn check_push(&self) -> (r: bool)
        requires
            self.wf(),
        ensures
            r <==> self@.len() < self.spec_capacity() - 1,
    {
        let next = if self.tail + 1 == self.capacity {
            0
        } else {
            self.tail + 1
        };
        next != self.head
    }

    /// Whether a pop is possible: the ring is not empty.
    pub fn check_pop(&self) -> (r: bool)
        requires
            self.wf(),
        ensures
            r <==> self@.len() > 0,
    {
        self.head != self.tail
    }

    /// Free slots still available to the producer.
    pub fn free_space(&self) -> (r: usize)
        requires
            self.wf(),
        ensures
            r == self.spec_capacity() - 1 - self@.len(),
    {
        if self.tail >= self.head {
            self.capacity - 1 - (self.tail - self.head)
        } else {
            self.head - self.tail - 1
        }
    }

    /// Stores one item at `tail` and advances `tail` by one slot. Demands a
    /// ring that is not full; never drops an item.
    pub fn push(&mut self, item: T)
        requires
            old(self).wf(),
            old(self)@.len() < old(self).spec_capacity() - 1,
        ensures
            final(self).wf(),
            final(self)@ == old(self)@.push(item),
            final(self).spec_capacity() == old(self).spec_capacity(),
    {
        let tail = self.tail;
        self.store[tail] = Some(item);
        self.tail = if tail + 1 == self.capacity {
            0
        } else {
            tail + 1
        };
        proof {
            let pre = *old(self);
            assert(self.spec_len() == pre.spec_len() + 1);
            assert forall|k: int| 0 <= k < self.spec_len() implies self.store@[self.spec_slot(k)]
                is Some by {
                if k < pre.spec_len() {
                    assert(self.spec_slot(k) == pre.spec_slot(k));
                    assert(pre.spec_slot(k) != pre.tail);
                } else {
                    assert(self.spec_slot(k) == pre.tail);
                }
            }
            assert forall|k: int| 0 <= k < self.spec_len() implies self@[k] == pre@.push(item)[k]
                by {
                if k < pre.spec_len() {
                    assert(self.spec_slot(k) == pre.spec_slot(k));
                    assert(pre.spec_slot(k) != pre.tail);
                } else {
                    assert(self.spec_slot(k) == pre.tail);
                }
            }
            assert(self@ =~= pre@.push(item));
        }
    }

    /// Takes the item at `head`, if any, and advances `head` by one slot.
    pub fn try_pop(&mut self) -> (r: Option<T>)
        requires
            old(self).wf(),
        ensures
            final(self).wf(),
            final(self).spec_capacity() == old(self).spec_capacity(),
            old(self)@.len() == 0 ==> r is None && final(self)@ == old(self)@,
            old(self)@.len() > 0 ==> r == Some(old(self)@[0]) && final(self)@ == old(
                self,
            )@.subrange(1, old(self)@.len() as int),
    {
        if self.head == self.tail {
            return None;
        }
        let head = self.head;
        let item = self.store[head].take();
        self.head = if head + 1 == self.capacity {
            0
        } else {
            head + 1
        };
        proof {
            let pre = *old(self);
            assert(pre.spec_slot(0) == pre.head);
            assert(self.spec_len() == pre.spec_len() - 1);
            assert forall|k: int| 0 <= k < self.spec_len() implies self.store@[self.spec_slot(k)]
                is Some by {
                assert(self.spec_slot(k) == pre.spec_slot(k + 1));
                assert(pre.spec_slot(k + 1) != pre.head);
                assert(pre.store@[pre.spec_slot(k + 1)] is Some);
            }
            assert(self.wf());
            assert forall|k: int| 0 <= k < self.spec_len() implies self@[k] == pre@.subrange(
                1,
                pre@.len() as int,
            )[k] by {
                assert(self.spec_slot(k) == pre.spec_slot(k + 1));
                assert(pre.spec_slot(k + 1) != pre.head);
            }
            assert(self@ =~= pre@.subrange(1, pre@.len() as int));
        }
        item
    }

    /// Takes the item at `head` of a ring known not to be empty.
    pub fn pop(&mut self) -> (r: T)
        requires
            old(self).wf(),
            old(self)@.len() > 0,
        ensures
            final(self).wf(),
            final(self).spec_capacity() == old(self).spec_capacity(),
            r == old(self)@[0],
            final(self)@ == old(self)@.subrange(1, old(self)@.len() as int),
    {
        let r = self.try_pop();
        match r {
            Some(item) => item,
            None => unreached(),
        }
    }

    /// Pops every queued item, in FIFO order. Afterwards the ring is empty:
    /// its head and tail cursors coincide.
    pub fn drain(&mut self) -> (r: Vec<T>)
        requires
            old(self).wf(),
        ensures
            final(self).wf(),
            final(self).spec_capacity() == old(self).spec_capacity(),
            r@ == old(self)@,
            final(self)@.len() == 0,
            final(self).spec_head() == final(self).spec_tail(),
    {
        let mut out: Vec<T> = Vec::new();
        loop
            invariant
                self.wf(),
                self.spec_capacity() == old(self).spec_capacity(),
                out@ + self@ == old(self)@,
            decreases self@.len(),
        {
            match self.try_pop() {
                Some(item) => {
                    out.push(item);
                    proof {
                        assert(out@ + self@ =~= old(self)@);
                    }
                },
                None => {
                    proof {
                        assert(out@ =~= old(self)@);
                        self.lemma_empty_iff_head_eq_tail();
                    }
                    return out;
                },
            }
        }
    }
}

/// The producer endpoint of a ring: the single owner of its push side. At
/// end of input it is handed over, ring and all, to the consumer side.
pub struct Producer<T> {
    buffer: Buffer<T>,
}

/// The consumer endpoint of a ring: the single owner of its pop side.
pub struct Consumer<T> {
    buffer: Buffer<T>,
}

/// Creates a ring of `capacity` slots and returns its producer endpoint.
pub fn create<T>(capacity: usize) -> (r: Producer<T>)
    requires
        capacity >= 2,
    ensures
        r.wf(),
        r@ == Seq::<T>::empty(),
        r.spec_capacity() == capacity,
{
    Producer { buffer: Buffer::new(capacity) }
}

impl<T> View for Producer<T> {
    type V = Seq<T>;

    closed spec fn view(&self) -> Seq<T> {
        self.buffer@
    }
}

impl<T> Producer<T> {
    /// The underlying ring's invariant.
    pub closed spec fn wf(&self) -> bool {
        self.buffer.wf()
    }

    /// The underlying ring's slot count.
    pub closed spec fn spec_capacity(&self) -> int {
        self.buffer.spec_capacity()
    }

    /// Whether a push is possible: the ring is not full.
    pub fn check_push(&self) -> (r: bool)
        requires
            self.wf(),
        ensures
            r <==> self@.len() < self.spec_capacity() - 1,
    {
        self.buffer.check_push()
    }

    /// Appends one item to the ring, which must not be full.
    pub fn push(&mut self, item: T)
        requires
            old(self).wf(),
            old(self)@.len() < old(self).spec_capacity() - 1,
        ensures
            final(self).wf(),
            final(self)@ == old(self)@.push(item),
            final(self).spec_capacity() == old(self).spec_capacity(),
    {
        self.buffer.push(item)
    }

    /// Free slots still available to the producer.
    pub fn free_space(&self) -> (r: usize)
        requires
            self.wf(),
        ensures
            r == self.spec_capacity() - 1 - self@.len(),
    {
        self.buffer.free_space()
    }

    /// Ends production: hands the ring over to the consumer side.
    pub fn into_consumer(self) -> (r: Consumer<T>)
        requires
            self.wf(),
        ensures
            r.wf(),
            r@ == self@,
            r.spec_capacity() == self.spec_capacity(),
    {
        Consumer { buffer: self.buffer }
    }
}

impl<T> View for Consumer<T> {
    type V = Seq<T>;

    closed spec fn view(&self) -> Seq<T> {
        self.buffer@
    }
}

impl<T> Consumer<T> {
    /// The underlying ring's invariant.
    pub closed spec fn wf(&self) -> bool {
        self.buffer.wf()
    }

    /// The underlying ring's consumer cursor.
    pub closed spec fn spec_head(&self) -> int {
        self.buffer.spec_head()
    }

    /// The underlying ring's producer cursor.
    pub closed spec fn spec_tail(&self) -> int {
        self.buffer.spec_tail()
    }

    /// The underlying ring's slot count.
    pub closed spec fn spec_capacity(&self) -> int {
        self.buffer.spec_capacity()
    }

    /// Whether a pop is possible: the ring is not empty.
    pub fn check_pop(&self) -> (r: bool)
        requires
            self.wf(),
        ensures
            r <==> self@.len() > 0,
    {
        self.buffer.check_pop()
    }

    /// Takes the oldest queued item, if any.
    pub fn try_pop(&mut self) -> (r: Option<T>)
        requires
            old(self).wf(),
        ensures
            final(self).wf(),
            final(self).spec_capacity() == old(self).spec_capacity(),
            old(self)@.len() == 0 ==> r is None && final(self)@ == old(self)@,
            old(self)@.len() > 0 ==> r == Some(old(self)@[0]) && final(self)@ == old(
                self,
            )@.subrange(1, old(self)@.len() as int),
    {
        self.buffer.try_pop()
    }

    /// Takes the oldest queued item of a ring known not to be empty.
    pub fn pop(&mut self) -> (r: T)
        requires
            old(self).wf(),
            old(self)@.len() > 0,
        ensures
            final(self).wf(),
            final(self).spec_capacity() == old(self).spec_capacity(),
            r == old(self)@[0],
            final(self)@ == old(self)@.subrange(1, old(self)@.len() as int),
    {
        self.buffer.pop()
    }

    /// Flushes the backlog: pops every queued item, in FIFO order, leaving
    /// the ring empty with its head and tail cursors met.
    pub fn drain(&mut self) -> (r: Vec<T>)
        requires
            old(self).wf(),
        ensures
            final(self).wf(),
            final(self).spec_capacity() == old(self).spec_capacity(),
            r@ == old(self)@,
            final(self)@.len() == 0,
            final(self).spec_head() == final(self).spec_tail(),
    {
        self.buffer.drain()
    }
}

} // verus!
