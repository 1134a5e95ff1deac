//! Laws of the bounded queue, stated over the abstract push/pop transitions
//! (`spec_push`, `spec_pop`) that the executable operations are proved to
//! follow: FIFO order, the capacity bound, recovery of space after a failed
//! push, and conservation of the values that pass through the buffer.

use crate::ring::{spec_pop, spec_push, BufferError};
use vstd::prelude::*;

verus! {

/// The contents after pushing each value of `values` in order.
pub open spec fn push_all(contents: Seq<u8>, capacity: nat, values: Seq<u8>) -> Seq<u8>
    decreases values.len(),
{
    if values.len() == 0 {
        contents
    } else {
        push_all(spec_push(contents, capacity, values[0]).0, capacity, values.drop_first())
    }
}

/// Whether every push of `values`, made in order, succeeds.
pub open spec fn all_pushes_succeed(contents: Seq<u8>, capacity: nat, values: Seq<u8>) -> bool
    decreases values.len(),
{
    values.len() == 0 || (spec_push(contents, capacity, values[0]).1 == Ok::<(), BufferError>(())
        && all_pushes_succeed(
        spec_push(contents, capacity, values[0]).0,
        capacity,
        values.drop_first(),
    ))
}

/// The contents after `n` pops.
pub open spec fn pop_n(contents: Seq<u8>, n: nat) -> Seq<u8>
    decreases n,
{
    if n == 0 {
        contents
    } else {
        pop_n(spec_pop(contents).0, (n - 1) as nat)
    }
}

/// The values collected, in order, by popping until the buffer is empty.
pub open spec fn drain_all(contents: Seq<u8>) -> Seq<u8>
    decreases contents.len(),
{
    if contents.len() == 0 {
        Seq::<u8>::empty()
    } else {
        seq![spec_pop(contents).1.unwrap()] + drain_all(spec_pop(contents).0)
    }
}

/// Pushing a batch that fits in the remaining space appends it, value by
/// value, and every push of the batch succeeds.
pub proof fn lemma_push_all_appends(contents: Seq<u8>, capacity: nat, values: Seq<u8>)
    requires
        contents.len() + values.len() <= capacity,
    ensures
        all_pushes_succeed(contents, capacity, values),
        push_all(contents, capacity, values) == contents + values,
    decreases values.len(),
{
    if values.len() == 0 {
        assert(contents + values =~= contents);
    } else {
        lemma_push_all_appends(contents.push(values[0]), capacity, values.drop_first());
        assert(contents.push(values[0]) + values.drop_first() =~= contents + values);
    }
}

/// Popping `n` times from a buffer that holds at least `n` values drops
/// exactly the `n` oldest.
pub proof fn lemma_pop_n_skips(contents: Seq<u8>, n: nat)
    requires
        n <= contents.len(),
    ensures
        pop_n(contents, n) == contents.skip(n as int),
    decreases n,
{
    if n == 0 {
        assert(contents.skip(0) =~= contents);
    } else {
        lemma_pop_n_skips(spec_pop(contents).0, (n - 1) as nat);
        assert(contents.drop_first().skip(n - 1) =~= contents.skip(n as int));
    }
}

/// Draining a buffer collects exactly its contents, oldest first.
pub proof fn lemma_drain_all_collects(contents: Seq<u8>)
    ensures
        drain_all(contents) == contents,
    decreases contents.len(),
{
    if contents.len() > 0 {
        lemma_drain_all_collects(contents.drop_first());
        assert(seq![contents[0]] + contents.drop_first() =~= contents);
    }
}

/// FIFO order: pushing `values` (no more of them than the capacity) into an
/// empty buffer succeeds throughout and leaves exactly `values`; the k-th
/// pop thereafter returns `values[k]` — the exact order of the pushes, with
/// no reordering.
pub proof fn lemma_fifo_order(capacity: nat, values: Seq<u8>)
    requires
        values.len() <= capacity,
    ensures
        all_pushes_succeed(Seq::<u8>::empty(), capacity, values),
        push_all(Seq::<u8>::empty(), capacity, values) == values,
        forall|k: int|
            0 <= k < values.len() ==> spec_pop(pop_n(values, k as nat)).1 == Some(values[k]),
{
    lemma_push_all_appends(Seq::<u8>::empty(), capacity, values);
    assert(Seq::<u8>::empty() + values =~= values);
    assert forall|k: int| 0 <= k < values.len() implies spec_pop(pop_n(values, k as nat)).1
        == Some(values[k]) by {
        lemma_pop_n_skips(values, k as nat);
        assert(values.skip(k)[0] == values[k]);
    }
}

/// Capacity bound: after exactly `capacity` successful pushes into an empty
/// buffer, any further push fails with `Full` and leaves the contents
/// untouched, and the next pop still returns the first value pushed.
pub proof fn lemma_capacity_bound(capacity: nat, values: Seq<u8>)
    requires
        values.len() == capacity,
    ensures
        all_pushes_succeed(Seq::<u8>::empty(), capacity, values),
        push_all(Seq::<u8>::empty(), capacity, values) == values,
        forall|next: u8| #[trigger]
            spec_push(values, capacity, next) == (values, Err::<(), BufferError>(BufferError::Full)),
        capacity > 0 ==> spec_pop(values).1 == Some(values[0]),
{
    lemma_push_all_appends(Seq::<u8>::empty(), capacity, values);
    assert(Seq::<u8>::empty() + values =~= values);
}

/// Capacity recovery: on a full buffer a push fails with `Full`, but one pop
/// frees exactly one slot, and the push then succeeds — the space reclaimed
/// is exactly the amount popped.
pub proof fn lemma_capacity_recovery(capacity: nat, contents: Seq<u8>, next: u8)
    requires
        contents.len() == capacity,
        capacity > 0,
    ensures
        spec_push(contents, capacity, next).1 == Err::<(), BufferError>(BufferError::Full),
        spec_push(spec_pop(contents).0, capacity, next) == (
            contents.drop_first().push(next),
            Ok::<(), BufferError>(()),
        ),
{
}

/// Conservation: pushing `values` into an empty buffer and then draining it
/// gives back exactly `values` — the multiset collected equals the multiset
/// pushed, with no loss, duplication or corruption. Under concurrency the
/// lock serializes all pushes and pops into one such sequence, so the same
/// holds of the values collected by all consumers together.
pub proof fn lemma_conservation(capacity: nat, values: Seq<u8>)
    requires
        values.len() <= capacity,
    ensures
        drain_all(push_all(Seq::<u8>::empty(), capacity, values)) == values,
        drain_all(push_all(Seq::<u8>::empty(), capacity, values)).to_multiset()
            == values.to_multiset(),
{
    lemma_push_all_appends(Seq::<u8>::empty(), capacity, values);
    assert(Seq::<u8>::empty() + values =~= values);
    lemma_drain_all_collects(values);
}

} // verus!
