//! The ring buffer and its frozen view.

use crate::cursor::{advanced, occupied, occupied_count, physical_slot_of, slot, valid};
use crate::cursor::{lemma_occupied_of_valid, lemma_slot_wraps_once, lemma_slots_shift};
use crate::model::{after_push, evicted_by_push, newest, oldest};
use core::mem::swap;
use vstd::prelude::*;

verus! {

/// A buffer of fixed capacity that, once full, gives up its oldest element for
/// each new one.
///
/// Its view is the sequence of live elements, oldest first.
pub struct RingBuffer<A> {
    buffer: Vec<A>,
    start: usize,
    end: usize,
    capacity: usize,
}

impl<A> View for RingBuffer<A> {
    type V = Seq<A>;

    /// The live elements, oldest first: as many as lie between the cursors, each
    /// read from the slot that its position maps to.
    open spec fn view(&self) -> Seq<A> {
        Seq::new(
            occupied(self.start(), self.end(), self.spec_capacity() as int) as nat,
            |idx: int| self.storage()[slot(self.start(), idx, self.spec_capacity() as int)],
        )
    }
}

impl<A> RingBuffer<A> {
    /// What holds of every ring buffer at all times: the cursors are valid for
    /// the capacity, and the storage has grown exactly as far as the cursors say.
    #[verifier::type_invariant]
    pub closed spec fn wf(&self) -> bool {
        &&& valid(self.start as int, self.end as int, self.capacity as int)
        &&& self.buffer@.len() == if self.start == 0 {
            self.end
        } else {
            self.capacity
        }
    }

    /// The number of elements that the buffer can hold.
    pub closed spec fn spec_capacity(&self) -> usize {
        self.capacity
    }

    /// Slot of the oldest live element.
    pub closed spec fn start(&self) -> int {
        self.start as int
    }

    /// One past the slot of the newest live element.
    pub closed spec fn end(&self) -> int {
        self.end as int
    }

    /// The slots of the backing storage that have been written so far.
    pub closed spec fn storage(&self) -> Seq<A> {
        self.buffer@
    }

    /// A well-formed buffer has room for at least one element, never holds more
    /// than its capacity, and keeps its cursors valid.
    pub proof fn lemma_bounded(&self)
        requires
            self.wf(),
        ensures
            0 < self.spec_capacity(),
            self@.len() <= self.spec_capacity(),
            valid(self.start(), self.end(), self.spec_capacity() as int),
    {
        lemma_occupied_of_valid(self.start as int, self.end as int, self.capacity as int);
    }

    /// Moving the cursors on and writing one slot is a push: where `after` differs
    /// from `before` in just that way, it holds what `before` held with `val`
    /// pushed, and the slot that was overwritten held the oldest element.
    proof fn lemma_pushed(before: Self, after: Self, val: A)
        requires
            before.wf(),
            after.capacity == before.capacity,
            (after.start as int, after.end as int) == advanced(
                before.start as int,
                before.end as int,
                before.capacity as int,
            ),
            after.buffer@ == if before@.len() < before.capacity {
                before.buffer@.push(val)
            } else {
                before.buffer@.update(before.start as int, val)
            },
        ensures
            after.wf(),
            after@ == after_push(before@, before.capacity as nat, val),
            before@.len() >= before.capacity ==> before@.first()
                == before.buffer@[before.start as int],
    {
        let cap = before.capacity as int;
        lemma_occupied_of_valid(before.start as int, before.end as int, cap);
        if before@.len() < before.capacity {
            assert forall|idx: int| 0 <= idx < cap implies slot(0, idx, cap) == idx by {
                lemma_slot_wraps_once(0, idx, cap);
            }
        } else {
            assert forall|idx: int| 0 <= idx < cap implies after@[idx] == after_push(
                before@,
                cap as nat,
                val,
            )[idx] by {
                lemma_slots_shift(before.start as int, before.end as int, cap, idx);
            }
            lemma_slots_shift(before.start as int, before.end as int, cap, 0);
        }
        assert(after@ =~= after_push(before@, cap as nat, val));
    }

    /// The number of elements that the buffer can hold, as fixed at construction.
    #[verifier::when_used_as_spec(spec_capacity)]
    pub fn capacity(&self) -> (capacity: usize)
        ensures
            capacity == self.spec_capacity(),
            capacity > 0,
    {
        proof {
            use_type_invariant(self);
        }
        self.capacity
    }

    /// The number of live elements.
    pub fn len(&self) -> (len: usize)
        ensures
            len == self@.len(),
            len == occupied(self.start(), self.end(), self.spec_capacity() as int),
            len <= self.spec_capacity(),
    {
        proof {
            use_type_invariant(self);
        }
        occupied_count(self.start, self.end, self.capacity)
    }

    /// Applies `cont` to the oldest live element, if there is one.
    pub fn peek_first<B, F: Fn(&A) -> B>(&self, cont: F) -> (projected: Option<B>)
        requires
            self@.len() > 0 ==> call_requires(cont, (&self@.first(),)),
        ensures
            match projected {
                None => oldest(self@) is None,
                Some(seen) => oldest(self@) is Some && call_ensures(cont, (&self@.first(),), seen),
            },
    {
        proof {
            use_type_invariant(self);
            lemma_occupied_of_valid(self.start as int, self.end as int, self.capacity as int);
        }
        if self.start == 0 && self.end == 0 {
            None
        } else {
            proof {
                lemma_slot_wraps_once(self.start as int, 0, self.capacity as int);
            }
            Some(cont(&self.buffer[self.start]))
        }
    }

    /// Applies `cont` to the newest live element, if there is one.
    pub fn peek_last<B, F: Fn(&A) -> B>(&self, cont: F) -> (projected: Option<B>)
        requires
            self@.len() > 0 ==> call_requires(cont, (&self@.last(),)),
        ensures
            match projected {
                None => newest(self@) is None,
                Some(seen) => newest(self@) is Some && call_ensures(cont, (&self@.last(),), seen),
            },
    {
        proof {
            use_type_invariant(self);
            lemma_occupied_of_valid(self.start as int, self.end as int, self.capacity as int);
        }
        if self.start == 0 && self.end == 0 {
            None
        } else {
            proof {
                lemma_slot_wraps_once(self.start as int, self@.len() - 1, self.capacity as int);
            }
            Some(cont(&self.buffer[self.end - 1]))
        }
    }

    /// Moves the buffer out and leaves an empty one of the same capacity behind.
    fn take(&mut self) -> (taken: Self)
        ensures
            taken == *old(self),
            taken.wf(),
    {
        proof {
            use_type_invariant(&*self);
        }
        let mut taken =
            RingBuffer { buffer: Vec::new(), start: 0, end: 0, capacity: self.capacity };
        swap(self, &mut taken);
        taken
    }

    /// Inserts `val` as the newest element. A full buffer makes room by giving up
    /// its oldest element, which is handed back.
    pub fn push(&mut self, val: A) -> (evicted: Option<A>)
        ensures
            final(self).spec_capacity() == old(self).spec_capacity(),
            final(self)@ == after_push(old(self)@, old(self).spec_capacity() as nat, val),
            evicted == evicted_by_push(old(self)@, old(self).spec_capacity() as nat),
            (final(self).start(), final(self).end()) == advanced(
                old(self).start(),
                old(self).end(),
                old(self).spec_capacity() as int,
            ),
            final(self).storage() == if old(self)@.len() < old(self).spec_capacity() {
                old(self).storage().push(val)
            } else {
                old(self).storage().update(old(self).start(), val)
            },
    {
        // Cursors and storage change together, so the buffer is taken apart,
        // worked on, and put back as a whole.
        let RingBuffer { mut buffer, mut start, mut end, capacity } = self.take();
        proof {
            lemma_occupied_of_valid(start as int, end as int, capacity as int);
        }
        let mut carried = val;
        let evicted = if start == 0 {
            if end >= capacity {
                swap(&mut buffer[0], &mut carried);
                if 1 < capacity {
                    start = 1;
                    end = 1;
                }
                Some(carried)
            } else {
                buffer.push(carried);
                end += 1;
                None
            }
        } else {
            swap(&mut buffer[end], &mut carried);
            end += 1;
            if end < capacity {
                start = end;
            } else {
                start = 0;
            }
            Some(carried)
        };
        let after = RingBuffer { buffer, start, end, capacity };
        proof {
            Self::lemma_pushed(*old(self), after, val);
        }
        *self = after;
        evicted
    }
}

/// Creates an empty buffer that can hold `size` elements.
pub fn new<A>(size: usize) -> (ring_buffer: RingBuffer<A>)
    requires
        size > 0,
    ensures
        ring_buffer.spec_capacity() == size,
        ring_buffer.start() == 0,
        ring_buffer.end() == 0,
        ring_buffer.storage() == Seq::<A>::empty(),
        ring_buffer@ == Seq::<A>::empty(),
        oldest(ring_buffer@) is None,
        newest(ring_buffer@) is None,
{
    let mut buffer = Vec::new();
    // Reserving ahead only saves reallocations while the buffer fills. Where the
    // allocator declines, storage grows as elements arrive.
    let _ = buffer.try_reserve(size);
    RingBuffer { buffer, start: 0, end: 0, capacity: size }
}

/// A read-only hold on a ring buffer, for lookups by position.
///
/// Its view is that of the buffer it holds.
pub struct RingBufferView<A> {
    ring_buffer: RingBuffer<A>,
}

impl<A> View for RingBufferView<A> {
    type V = Seq<A>;

    /// The live elements of the buffer that the view holds, oldest first.
    open spec fn view(&self) -> Seq<A> {
        self.thawed()@
    }
}

/// The view that holds `ring_buffer`.
pub closed spec fn frozen<A>(ring_buffer: RingBuffer<A>) -> RingBufferView<A> {
    RingBufferView { ring_buffer }
}

/// Wraps `ring_buffer` into a view. Nothing is copied.
pub fn freeze<A>(ring_buffer: RingBuffer<A>) -> (frozen_view: RingBufferView<A>)
    ensures
        frozen_view == frozen(ring_buffer),
        frozen_view.thawed() == ring_buffer,
        frozen_view@ == ring_buffer@,
{
    RingBufferView { ring_buffer }
}

impl<A> RingBufferView<A> {
    /// The buffer that the view holds.
    pub closed spec fn thawed(self) -> RingBuffer<A> {
        self.ring_buffer
    }

    /// Looks up the element at logical position `idx`, where 0 is the oldest.
    pub fn at(&self, idx: usize) -> (found: Option<&A>)
        ensures
            idx >= self.thawed().spec_capacity() ==> found is None,
            idx >= self@.len() ==> found is None,
            idx < self@.len() ==> found == Some(&self@[idx as int]),
    {
        proof {
            use_type_invariant(&self.ring_buffer);
            lemma_occupied_of_valid(
                self.ring_buffer.start as int,
                self.ring_buffer.end as int,
                self.ring_buffer.capacity as int,
            );
        }
        if idx >= self.ring_buffer.capacity {
            return None;
        }
        let found_at: usize = physical_slot_of(
            self.ring_buffer.start,
            idx,
            self.ring_buffer.capacity,
        );
        proof {
            lemma_slot_wraps_once(
                self.ring_buffer.start as int,
                idx as int,
                self.ring_buffer.capacity as int,
            );
        }
        // Off slot 0 the window wraps around the whole storage and every slot is
        // live; on slot 0 it ends before `end`.
        if self.ring_buffer.start == 0 && found_at >= self.ring_buffer.end {
            return None;
        }
        Some(&self.ring_buffer.buffer[found_at])
    }

    /// Gives the buffer back for further pushes.
    pub fn thaw(self) -> (ring_buffer: RingBuffer<A>)
        ensures
            ring_buffer == self.thawed(),
            frozen(ring_buffer) == self,
            ring_buffer@ == self@,
    {
        self.ring_buffer
    }
}

/// Freezing and thawing are inverse to each other: the buffer that comes back is
/// the buffer that went in, with the same capacity, the same length and the same
/// element at every position.
pub proof fn lemma_thaw_freeze<A>(ring_buffer: RingBuffer<A>, frozen_view: RingBufferView<A>)
    ensures
        frozen(ring_buffer).thawed() == ring_buffer,
        frozen(ring_buffer).thawed().spec_capacity() == ring_buffer.spec_capacity(),
        frozen(ring_buffer).thawed()@.len() == ring_buffer@.len(),
        frozen(ring_buffer).thawed()@ == ring_buffer@,
        frozen(ring_buffer)@ == ring_buffer@,
        frozen(frozen_view.thawed()) == frozen_view,
{
}

} // verus!
