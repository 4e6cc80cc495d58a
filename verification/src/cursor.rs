//! Cursor arithmetic of the ring.
//!
//! A ring of `capacity` slots is described by two cursors. `start` is the slot of
//! the oldest live element and `end` is one past the slot of the newest. While
//! the ring fills for the first time `start` rests on slot 0 and `end` counts the
//! elements. From the first eviction on the ring stays full, and both cursors
//! travel together around the storage.

use vstd::arithmetic::div_mod::{lemma_mod_add_multiples_vanish, lemma_small_mod};
use vstd::prelude::*;

verus! {

/// Whether `start` and `end` are cursors that a ring of `capacity` slots can be in.
///
/// With `start` on slot 0 the live window is `[0, end)`, which covers the first
/// filling, the empty ring (`end == 0`) and a full ring whose oldest element sits
/// on slot 0 (`end == capacity`). With `start` anywhere else the ring is full and
/// `end` coincides with `start`.
pub open spec fn valid(start: int, end: int, capacity: int) -> bool {
    &&& 0 < capacity
    &&& if start == 0 {
        0 <= end <= capacity
    } else {
        0 < start < capacity && end == start
    }
}

/// Number of live elements between the cursors.
///
/// Coinciding cursors mean an empty ring only on slot 0; anywhere else they mean
/// that the window wraps around the whole storage.
pub open spec fn occupied(start: int, end: int, capacity: int) -> int {
    if start == 0 && end == 0 {
        0
    } else if start < end {
        end - start
    } else {
        capacity - start + end
    }
}

/// Storage slot of the element at logical position `idx`, where 0 is the oldest.
pub open spec fn slot(start: int, idx: int, capacity: int) -> int {
    (start + idx) % capacity
}

/// The cursors after one more element has been pushed.
///
/// A ring that still has room only moves `end`. A full ring overwrites its oldest
/// element, so the window moves on by one slot; when it would leave the last slot
/// it is laid out from slot 0 again.
pub open spec fn advanced(start: int, end: int, capacity: int) -> (int, int) {
    if occupied(start, end, capacity) < capacity {
        (start, end + 1)
    } else if start + 1 < capacity {
        (start + 1, start + 1)
    } else {
        (0, capacity)
    }
}

/// Valid cursors never describe more than `capacity` elements: on slot 0 the
/// count is `end`, and off slot 0 the ring is full.
pub proof fn lemma_occupied_of_valid(start: int, end: int, capacity: int)
    requires
        valid(start, end, capacity),
    ensures
        0 <= occupied(start, end, capacity) <= capacity,
        start == 0 ==> occupied(start, end, capacity) == end,
        start != 0 ==> occupied(start, end, capacity) == capacity,
{
}

/// Pushing keeps the cursors valid and adds one element until the ring is full;
/// from then on the count stays at `capacity`.
pub proof fn lemma_advanced(start: int, end: int, capacity: int)
    requires
        valid(start, end, capacity),
    ensures
        valid(advanced(start, end, capacity).0, advanced(start, end, capacity).1, capacity),
        occupied(advanced(start, end, capacity).0, advanced(start, end, capacity).1, capacity)
            == if occupied(start, end, capacity) < capacity {
            occupied(start, end, capacity) + 1
        } else {
            capacity
        },
{
}

/// A slot is found without a division: the sum of cursor and position wraps
/// around the end of the storage at most once.
pub proof fn lemma_slot_wraps_once(start: int, idx: int, capacity: int)
    requires
        0 <= start < capacity,
        0 <= idx < capacity,
    ensures
        0 <= slot(start, idx, capacity) < capacity,
        slot(start, idx, capacity) == if start + idx < capacity {
            start + idx
        } else {
            start + idx - capacity
        },
{
    if start + idx < capacity {
        lemma_small_mod((start + idx) as nat, capacity as nat);
    } else {
        lemma_small_mod((start + idx - capacity) as nat, capacity as nat);
        lemma_mod_add_multiples_vanish(start + idx - capacity, capacity);
    }
}

/// A push onto a full ring moves every element but the oldest one position
/// towards the front without moving it in storage, and the slot that the oldest
/// element leaves is the slot of the newest position.
pub proof fn lemma_slots_shift(start: int, end: int, capacity: int, idx: int)
    requires
        valid(start, end, capacity),
        occupied(start, end, capacity) == capacity,
        0 <= idx < capacity,
    ensures
        slot(start, 0, capacity) == start,
        idx + 1 < capacity ==> slot(advanced(start, end, capacity).0, idx, capacity) == slot(
            start,
            idx + 1,
            capacity,
        ),
        idx + 1 < capacity ==> slot(start, idx + 1, capacity) != start,
        idx + 1 == capacity ==> slot(advanced(start, end, capacity).0, idx, capacity) == start,
{
    lemma_slot_wraps_once(start, 0, capacity);
    lemma_slot_wraps_once(advanced(start, end, capacity).0, idx, capacity);
    if idx + 1 < capacity {
        lemma_slot_wraps_once(start, idx + 1, capacity);
    }
}

/// Counts the live elements between valid cursors.
pub(crate) fn occupied_count(start: usize, end: usize, capacity: usize) -> (count: usize)
    requires
        valid(start as int, end as int, capacity as int),
    ensures
        count == occupied(start as int, end as int, capacity as int),
        count <= capacity,
{
    if start == 0 && end == 0 {
        0
    } else if start < end {
        end - start
    } else {
        capacity - start + end
    }
}

/// Finds the storage slot of logical position `idx`.
pub(crate) fn physical_slot_of(start: usize, idx: usize, capacity: usize) -> (found: usize)
    requires
        start < capacity,
        idx < capacity,
    ensures
        found == slot(start as int, idx as int, capacity as int),
        found < capacity,
{
    proof {
        lemma_slot_wraps_once(start as int, idx as int, capacity as int);
    }
    let room: usize = capacity - start;
    if idx < room {
        start + idx
    } else {
        idx - room
    }
}

} // verus!
