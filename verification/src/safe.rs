//! The mutual-exclusion wrapper: one ring buffer behind a verified lock, so
//! that any number of producer and consumer threads can push and pop
//! concurrently. Every access goes through an acquire-then-guaranteed-release
//! critical section, and the lock's protection predicate pins down what any
//! thread may put back: a well-formed buffer of the fixed capacity. Acquiring
//! the lock cannot fail and the release is unconditional on every exit path,
//! so no abandoned-lock state can arise.

use crate::ring::{BufferError, RingBuffer};
use vstd::prelude::*;
use vstd::rwlock::{RwLock, RwLockPredicate};

verus! {

/// The lock's protection predicate: only a well-formed buffer of exactly the
/// capacity chosen at construction may be stored behind the lock. This is
/// what makes the single-threaded invariants hold under concurrent use —
/// in particular, no reachable state ever holds more than `capacity` values.
pub struct FixedCapacity {
    pub capacity: usize,
}

impl RwLockPredicate<RingBuffer> for FixedCapacity {
    open spec fn inv(self, v: RingBuffer) -> bool {
        v.wf() && v.capacity() == self.capacity
    }
}

/// A thread-safe bounded queue: a `RingBuffer` guarded by a lock. Shared
/// across threads (behind a reference-counted handle made by the caller),
/// it exposes the same push/pop contract as the inner buffer, serialized.
pub struct SafeRingBuffer {
    inner: RwLock<RingBuffer, FixedCapacity>,
}

impl SafeRingBuffer {
    /// The capacity the inner buffer was built with.
    pub closed spec fn capacity(&self) -> nat {
        self.inner.pred().capacity as nat
    }

    /// The states the lock can hand out or take back: exactly those the
    /// protection predicate allows.
    pub closed spec fn lock_inv(&self, b: RingBuffer) -> bool {
        self.inner.inv(b)
    }

    /// Mutual exclusion keeps the size within bounds: every buffer state any
    /// thread can ever observe through the lock holds at most `capacity`
    /// values (and a count of occupied slots is never negative, being a
    /// length).
    pub proof fn lemma_observable_occupancy_bounded(&self, b: RingBuffer)
        requires
            self.lock_inv(b),
        ensures
            b@.len() <= self.capacity(),
            b.capacity() == self.capacity(),
    {
        b.lemma_occupancy_bounded();
    }

    /// Constructs the inner buffer and the guarding lock.
    pub fn new(capacity: usize) -> (s: Self)
        ensures
            s.capacity() == capacity,
    {
        let buffer = RingBuffer::new(capacity);
        SafeRingBuffer { inner: RwLock::new(buffer, Ghost(FixedCapacity { capacity })) }
    }

    /// Pushes under the lock: acquires it for the duration of the call only,
    /// delegates to the inner push, and releases on the way out. The outcome
    /// is the inner buffer's: success, or `Full` when the buffer held
    /// `capacity` values at the instant the lock was held — which with
    /// capacity 0 is every instant.
    pub fn push(&self, value: u8) -> (r: Result<(), BufferError>)
        ensures
            self.capacity() == 0 ==> r == Err::<(), BufferError>(BufferError::Full),
    {
        let (mut buffer, handle) = self.inner.acquire_write();
        proof {
            self.lemma_observable_occupancy_bounded(buffer);
        }
        let r = buffer.push(value);
        handle.release_write(buffer);
        r
    }

    /// Pops under the lock, with the same acquisition discipline as `push`.
    /// The outcome is the inner buffer's: the oldest value, or nothing when
    /// the buffer was empty at the instant the lock was held — which with
    /// capacity 0 is every instant.
    pub fn pop(&self) -> (r: Option<u8>)
        ensures
            self.capacity() == 0 ==> r is None,
    {
        let (mut buffer, handle) = self.inner.acquire_write();
        proof {
            self.lemma_observable_occupancy_bounded(buffer);
        }
        let r = buffer.pop();
        handle.release_write(buffer);
        r
    }
}

} // verus!
