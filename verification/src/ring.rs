//! The single-threaded ring buffer: a bounded FIFO queue over a fixed-size
//! circular storage array, with head/tail cursors advancing modulo the
//! capacity.

use vstd::prelude::*;

verus! {

/// The one failure a push can report: the buffer already holds `capacity`
/// values. Popping an empty buffer is not an error, only an absent value.
#[derive(Debug, Clone, Copy, PartialEq, Eq, Structural)]
pub enum BufferError {
    Full,
}

/// What a push does to the buffer's contents, seen abstractly: append the
/// value when a free slot exists, otherwise fail with `Full` and leave the
/// contents alone.
pub open spec fn spec_push(contents: Seq<u8>, capacity: nat, value: u8) -> (Seq<u8>, Result<
    (),
    BufferError,
>) {
    if contents.len() < capacity {
        (contents.push(value), Ok(()))
    } else {
        (contents, Err(BufferError::Full))
    }
}

/// What a pop does to the buffer's contents, seen abstractly: remove and
/// return the oldest value, or report that none is present.
pub open spec fn spec_pop(contents: Seq<u8>) -> (Seq<u8>, Option<u8>) {
    if contents.len() == 0 {
        (contents, None)
    } else {
        (contents.drop_first(), Some(contents[0]))
    }
}

/// Closed form of `x % cap` when `x` is less than one full turn past the end:
/// the remainder either leaves `x` alone or takes one capacity off it.
proof fn lemma_wrap(x: int, cap: int)
    requires
        cap > 0,
        0 <= x < 2 * cap,
    ensures
        x % cap == if x < cap {
            x
        } else {
            x - cap
        },
{
    if x < cap {
        vstd::arithmetic::div_mod::lemma_small_mod(x as nat, cap as nat);
    } else {
        vstd::arithmetic::div_mod::lemma_mod_sub_multiples_vanish(x, cap);
        vstd::arithmetic::div_mod::lemma_small_mod((x - cap) as nat, cap as nat);
    }
}

/// A bounded FIFO queue of bytes stored in a flat array with wraparound
/// indexing. `head` is the next slot to read, `tail` the next slot to write,
/// `size` the number of occupied slots; all bookkeeping is O(1).
pub struct RingBuffer {
    data: Vec<Option<u8>>,
    head: usize,
    tail: usize,
    size: usize,
    capacity: usize,
}

impl View for RingBuffer {
    type V = Seq<u8>;

    /// The occupied slots read in FIFO order, oldest first.
    closed spec fn view(&self) -> Seq<u8> {
        Seq::new(self.size as nat, |i: int| self.data@[self.slot(i)].unwrap())
    }
}

impl RingBuffer {
    /// The number of slots, fixed at construction.
    pub closed spec fn capacity(&self) -> nat {
        self.capacity as nat
    }

    /// The storage index that holds the `i`-th oldest value: `i` slots past
    /// `head`, wrapping around.
    closed spec fn slot(&self, i: int) -> int {
        (self.head + i) % (self.capacity as int)
    }

    /// Structural invariant: the storage has exactly `capacity` slots, at
    /// most `capacity` of them are occupied, both cursors are valid indices,
    /// `tail` sits `size` slots past `head` (modulo capacity), the logical
    /// window `[head, head+size)` holds a value and every other slot is
    /// empty. A capacity of 0 pins both cursors to 0 and the size to 0: such
    /// a buffer is at once full and empty.
    pub closed spec fn wf(&self) -> bool {
        &&& self.data@.len() == self.capacity
        &&& self.size <= self.capacity
        &&& if self.capacity == 0 {
            self.head == 0 && self.tail == 0
        } else {
            &&& self.head < self.capacity
            &&& self.tail < self.capacity
            &&& self.tail == (self.head + self.size) % (self.capacity as int)
        }
        &&& forall|i: int| 0 <= i < self.size ==> self.data@[#[trigger] self.slot(i)] is Some
        &&& forall|i: int|
            self.size <= i < self.capacity ==> self.data@[#[trigger] self.slot(i)] is None
    }

    /// A well-formed buffer never holds more values than its capacity.
    pub proof fn lemma_occupancy_bounded(&self)
        requires
            self.wf(),
        ensures
            self@.len() <= self.capacity(),
    {
    }

    /// Constructs a buffer with `capacity` empty slots and both cursors at 0.
    /// Any capacity is accepted, 0 included: no validation is performed.
    pub fn new(capacity: usize) -> (r: Self)
        ensures
            r.wf(),
            r.capacity() == capacity,
            r@ == Seq::<u8>::empty(),
    {
        let mut data: Vec<Option<u8>> = Vec::new();
        let mut i: usize = 0;
        while i < capacity
            invariant
                i <= capacity,
                data@.len() == i,
                forall|j: int| 0 <= j < i ==> data@[j] is None,
            decreases capacity - i,
        {
            data.push(None);
            i = i + 1;
        }
        let r = RingBuffer { data, head: 0, tail: 0, size: 0, capacity };
        proof {
            if capacity > 0 {
                vstd::arithmetic::div_mod::lemma_small_mod(0, capacity as nat);
            }
            assert forall|i: int| 0 <= i < capacity implies r.data@[#[trigger] r.slot(i)]
                is None by {
                vstd::arithmetic::div_mod::lemma_small_mod(i as nat, capacity as nat);
            }
            assert(r@ =~= Seq::<u8>::empty());
        }
        r
    }

    /// True exactly when no slot is occupied.
    pub fn is_empty(&self) -> (r: bool)
        ensures
            r == (self@.len() == 0),
    {
        self.size == 0
    }

    /// True exactly when every slot is occupied.
    pub fn is_full(&self) -> (r: bool)
        ensures
            r == (self@.len() == self.capacity()),
    {
        self.size == self.capacity
    }

    /// Writes `value` into the slot at `tail`, advances `tail` one step
    /// modulo the capacity and counts the new occupant — unless the buffer is
    /// full, in which case it fails with `Full` and changes nothing.
    pub fn push(&mut self, value: u8) -> (r: Result<(), BufferError>)
        requires
            old(self).wf(),
        ensures
            final(self).wf(),
            final(self).capacity() == old(self).capacity(),
            final(self)@ == spec_push(old(self)@, old(self).capacity(), value).0,
            r == spec_push(old(self)@, old(self).capacity(), value).1,
            old(self)@.len() == old(self).capacity() ==> *final(self) == *old(self),
    {
        if self.is_full() {
            return Err(BufferError::Full);
        }
        self.data[self.tail] = Some(value);
        self.tail = (self.tail + 1) % self.capacity;
        self.size = self.size + 1;
        proof {
            let cap = self.capacity as int;
            let h = self.head as int;
            let s = old(self).size as int;
            lemma_wrap(h + s, cap);
            lemma_wrap(h + s + 1, cap);
            lemma_wrap(old(self).tail + 1, cap);
            assert forall|i: int| 0 <= i < self.size implies self.data@[#[trigger] self.slot(i)]
                is Some by {
                lemma_wrap(h + i, cap);
                assert(old(self).slot(i) == (h + i) % cap);
                assert(self.slot(i) == (h + i) % cap);
            }
            assert forall|i: int|
                self.size <= i < cap implies self.data@[#[trigger] self.slot(i)] is None by {
                lemma_wrap(h + i, cap);
                assert(old(self).slot(i) == (h + i) % cap);
                assert(self.slot(i) == (h + i) % cap);
            }
            assert(self.wf());
            assert forall|i: int| 0 <= i < self.size implies self@[i] == old(self)@.push(value)[i]
                by {
                lemma_wrap(h + i, cap);
                assert(old(self).slot(i) == (h + i) % cap);
                assert(self.slot(i) == (h + i) % cap);
            }
            assert(self@ =~= old(self)@.push(value));
        }
        Ok(())
    }

    /// Reads and clears the slot at `head`, advances `head` one step modulo
    /// the capacity and gives the value back — unless the buffer is empty, in
    /// which case it returns nothing and changes nothing.
    pub fn pop(&mut self) -> (r: Option<u8>)
        requires
            old(self).wf(),
        ensures
            final(self).wf(),
            final(self).capacity() == old(self).capacity(),
            final(self)@ == spec_pop(old(self)@).0,
            r == spec_pop(old(self)@).1,
            old(self)@.len() == 0 ==> *final(self) == *old(self),
    {
        if self.is_empty() {
            return None;
        }
        let value = self.data[self.head];
        self.data[self.head] = None;
        self.head = (self.head + 1) % self.capacity;
        self.size = self.size - 1;
        proof {
            let cap = self.capacity as int;
            let oh = old(self).head as int;
            let s = old(self).size as int;
            lemma_wrap(oh, cap);
            lemma_wrap(oh + 1, cap);
            lemma_wrap(oh + s, cap);
            lemma_wrap(self.head + self.size, cap);
            assert(old(self).slot(0) == oh % cap);
            assert forall|i: int| 0 <= i < self.size implies self.data@[#[trigger] self.slot(i)]
                is Some by {
                lemma_wrap(self.head + i, cap);
                lemma_wrap(oh + i + 1, cap);
                assert(old(self).slot(i + 1) == (oh + i + 1) % cap);
            }
            assert forall|i: int|
                self.size <= i < cap implies self.data@[#[trigger] self.slot(i)] is None by {
                lemma_wrap(self.head + i, cap);
                lemma_wrap(oh + i + 1, cap);
                assert(old(self).slot(i + 1) == (oh + i + 1) % cap);
            }
            assert(self.wf());
            assert forall|i: int|
                0 <= i < self.size implies self@[i] == old(self)@.drop_first()[i] by {
                lemma_wrap(self.head + i, cap);
                lemma_wrap(oh + i + 1, cap);
                assert(old(self).slot(i + 1) == (oh + i + 1) % cap);
            }
            assert(self@ =~= old(self)@.drop_first());
        }
        value
    }
}

} // verus!
