//! The ring as a bounded queue.
//!
//! What a ring holds is a sequence of its live elements, oldest first. This
//! module says what a push does to that sequence, and what follows for any run
//! of pushes.

use vstd::prelude::*;

verus! {

/// The oldest element of `contents`, if there is any.
pub open spec fn oldest<A>(contents: Seq<A>) -> Option<A> {
    if contents.len() == 0 {
        None
    } else {
        Some(contents.first())
    }
}

/// The newest element of `contents`, if there is any.
pub open spec fn newest<A>(contents: Seq<A>) -> Option<A> {
    if contents.len() == 0 {
        None
    } else {
        Some(contents.last())
    }
}

/// What a push onto `contents` hands back: nothing while there is room, and the
/// oldest element once `capacity` elements are held.
pub open spec fn evicted_by_push<A>(contents: Seq<A>, capacity: nat) -> Option<A> {
    if contents.len() < capacity {
        None
    } else {
        Some(contents.first())
    }
}

/// The contents after `val` has been pushed: `val` becomes the newest element,
/// and a full ring loses its oldest one to make room.
pub open spec fn after_push<A>(contents: Seq<A>, capacity: nat, val: A) -> Seq<A> {
    if contents.len() < capacity {
        contents.push(val)
    } else {
        contents.drop_first().push(val)
    }
}

/// The contents after the elements of `vals` have been pushed in order.
pub open spec fn after_pushes<A>(contents: Seq<A>, capacity: nat, vals: Seq<A>) -> Seq<A>
    decreases vals.len(),
{
    if vals.len() == 0 {
        contents
    } else {
        after_push(after_pushes(contents, capacity, vals.drop_last()), capacity, vals.last())
    }
}

/// The last `capacity` elements of `all`, or all of them where there are fewer.
pub open spec fn newest_of<A>(all: Seq<A>, capacity: nat) -> Seq<A> {
    if all.len() <= capacity {
        all
    } else {
        all.subrange(all.len() - capacity, all.len() as int)
    }
}

/// A push adds one element while there is room and keeps the length at
/// `capacity` afterwards; either way the pushed value is the newest element, and
/// the oldest one stays unless it was evicted.
pub proof fn lemma_push<A>(contents: Seq<A>, capacity: nat, val: A)
    requires
        0 < capacity,
        contents.len() <= capacity,
    ensures
        after_push(contents, capacity, val).len() == if contents.len() < capacity {
            contents.len() + 1
        } else {
            capacity
        },
        newest(after_push(contents, capacity, val)) == Some(val),
        0 < contents.len() < capacity ==> oldest(after_push(contents, capacity, val)) == oldest(
            contents,
        ),
        evicted_by_push(contents, capacity) is Some <==> contents.len() == capacity,
{
}

/// Whatever was pushed, the ring holds the newest `capacity` elements of all it
/// was ever given, in the order in which they came.
pub proof fn lemma_pushes_keep_newest<A>(contents: Seq<A>, capacity: nat, vals: Seq<A>)
    requires
        0 < capacity,
        contents.len() <= capacity,
    ensures
        after_pushes(contents, capacity, vals) == newest_of(contents + vals, capacity),
    decreases vals.len(),
{
    if vals.len() == 0 {
        assert(contents + vals =~= contents);
    } else {
        let shorter = vals.drop_last();
        lemma_pushes_keep_newest(contents, capacity, shorter);
        assert(contents + vals =~= (contents + shorter).push(vals.last()));
        assert(after_pushes(contents, capacity, vals) =~= newest_of(contents + vals, capacity));
    }
}

/// Filling an empty ring: as long as no more than `capacity` elements have been
/// pushed, no push evicts anything, the ring holds exactly what was pushed, the
/// first value pushed is the oldest and the last one the newest.
pub proof fn lemma_filling<A>(capacity: nat, vals: Seq<A>)
    requires
        0 < capacity,
        vals.len() <= capacity,
    ensures
        after_pushes(Seq::<A>::empty(), capacity, vals) == vals,
        after_pushes(Seq::<A>::empty(), capacity, vals).len() == vals.len(),
        forall|k: int|
            0 <= k < vals.len() ==> (#[trigger] evicted_by_push(
                after_pushes(Seq::<A>::empty(), capacity, vals.take(k)),
                capacity,
            )) is None,
        vals.len() > 0 ==> oldest(after_pushes(Seq::<A>::empty(), capacity, vals)) == Some(vals[0]),
        vals.len() > 0 ==> newest(after_pushes(Seq::<A>::empty(), capacity, vals)) == Some(
            vals.last(),
        ),
{
    lemma_pushes_keep_newest(Seq::<A>::empty(), capacity, vals);
    assert(Seq::<A>::empty() + vals =~= vals);
    assert forall|k: int| 0 <= k < vals.len() implies (#[trigger] evicted_by_push(
        after_pushes(Seq::<A>::empty(), capacity, vals.take(k)),
        capacity,
    )) is None by {
        lemma_pushes_keep_newest(Seq::<A>::empty(), capacity, vals.take(k));
        assert(Seq::<A>::empty() + vals.take(k) =~= vals.take(k));
    }
}

/// A ring that has been given at least `capacity` elements is full. The next
/// push evicts the element that was pushed `capacity` pushes earlier, and the
/// oldest and newest elements are the first and last of the newest `capacity`
/// values pushed.
pub proof fn lemma_steady_state<A>(capacity: nat, vals: Seq<A>)
    requires
        0 < capacity,
        vals.len() >= capacity,
    ensures
        after_pushes(Seq::<A>::empty(), capacity, vals) == vals.subrange(
            vals.len() - capacity,
            vals.len() as int,
        ),
        after_pushes(Seq::<A>::empty(), capacity, vals).len() == capacity,
        evicted_by_push(after_pushes(Seq::<A>::empty(), capacity, vals), capacity) == Some(
            vals[vals.len() - capacity],
        ),
        oldest(after_pushes(Seq::<A>::empty(), capacity, vals)) == Some(
            vals[vals.len() - capacity],
        ),
        newest(after_pushes(Seq::<A>::empty(), capacity, vals)) == Some(vals.last()),
{
    lemma_pushes_keep_newest(Seq::<A>::empty(), capacity, vals);
    assert(Seq::<A>::empty() + vals =~= vals);
}

} // verus!
