//! A fixed-capacity FIFO ring buffer with one slot reserved as a sentinel gap.
//!
//! The buffer keeps `capacity` slots and two positions.  `write_pos` is the
//! slot the next queued element goes into, `read_pos` the slot the oldest
//! queued element sits in.  One slot always stays free, so equal positions
//! mean an empty ring and never a full one; at most `capacity - 1` elements
//! are ever queued at once.

use vstd::prelude::*;
use vstd::arithmetic::div_mod::lemma_mod_add_multiples_vanish;
use vstd::arithmetic::div_mod::lemma_small_mod;

verus! {

/// Number of occupied slots for the given positions:
/// `(write_pos + capacity - read_pos) % capacity`.
pub open spec fn ring_occupancy(write_pos: int, read_pos: int, capacity: int) -> int
    recommends
        capacity >= 1,
{
    (write_pos + capacity - read_pos) % capacity
}

/// The capacity actually realized for a request: at least 2, since a smaller
/// ring could not tell full from empty under the reserved-slot rule.
pub open spec fn clamped_capacity(requested: int) -> int {
    if requested < 2 {
        2
    } else {
        requested
    }
}

/// Whether slot `i` holds a queued element: the occupied region starts at
/// `read_pos` and ends just before `write_pos`, wrapping at the end of the
/// storage.
pub open spec fn slot_occupied(i: int, read_pos: int, write_pos: int) -> bool {
    if read_pos <= write_pos {
        read_pos <= i < write_pos
    } else {
        i < write_pos || read_pos <= i
    }
}

/// Slot of the `k`-th queued element, counting from `read_pos` and wrapping
/// at `capacity`.
pub open spec fn slot_position(read_pos: int, k: int, capacity: int) -> int
    recommends
        0 <= read_pos < capacity,
        0 <= k < capacity,
{
    if read_pos + k < capacity {
        read_pos + k
    } else {
        read_pos + k - capacity
    }
}

/// For in-range positions the occupancy formula equals its wrap-free branch
/// form and stays below `capacity`, which is why one slot is always free.
pub proof fn lemma_occupancy_value(write_pos: int, read_pos: int, capacity: int)
    requires
        0 <= write_pos < capacity,
        0 <= read_pos < capacity,
    ensures
        ring_occupancy(write_pos, read_pos, capacity) == if write_pos >= read_pos {
            write_pos - read_pos
        } else {
            write_pos + capacity - read_pos
        },
        0 <= ring_occupancy(write_pos, read_pos, capacity) < capacity,
{
    if write_pos >= read_pos {
        lemma_mod_add_multiples_vanish(write_pos - read_pos, capacity);
        lemma_small_mod((write_pos - read_pos) as nat, capacity as nat);
    } else {
        lemma_small_mod((write_pos + capacity - read_pos) as nat, capacity as nat);
    }
}

/// The realized capacity is at least 2: a request below 2 is raised to
/// exactly 2, any other request is kept as it is.
pub proof fn lemma_minimum_capacity(requested: int)
    ensures
        clamped_capacity(requested) >= 2,
        requested < 2 ==> clamped_capacity(requested) == 2,
        requested >= 2 ==> clamped_capacity(requested) == requested,
{
}

/// FIFO law: appending a value at the tail keeps every queued element at its
/// position and places the new value last, and taking the head afterwards
/// still yields the old head.  A value queued later therefore never leaves
/// before one queued earlier: no loss, no duplication, no reordering.
pub proof fn lemma_fifo_order<T>(contents: Seq<T>, value: T)
    ensures
        contents.push(value).len() == contents.len() + 1,
        forall|k: int|
            0 <= k < contents.len() ==> #[trigger] contents.push(value)[k] == contents[k],
        contents.push(value)[contents.len() as int] == value,
        contents.len() > 0 ==> contents.push(value)[0] == contents[0],
        contents.len() > 0 ==> contents.push(value).drop_first() == contents.drop_first().push(
            value,
        ),
{
    if contents.len() > 0 {
        assert(contents.push(value).drop_first() =~= contents.drop_first().push(value));
    }
}

/// Round-trip law: a value appended to an empty queue is the one value the
/// queue holds, and taking the head yields it back and leaves the queue
/// empty again.
pub proof fn lemma_round_trip<T>(value: T)
    ensures
        Seq::<T>::empty().push(value).len() == 1,
        Seq::<T>::empty().push(value)[0] == value,
        Seq::<T>::empty().push(value).drop_first() == Seq::<T>::empty(),
{
    assert(Seq::<T>::empty().push(value).drop_first() =~= Seq::<T>::empty());
}

/// Realizes a capacity request: at least 2 slots.
pub fn clamp_capacity(requested_capacity: usize) -> (capacity: usize)
    ensures
        capacity == clamped_capacity(requested_capacity as int),
{
    if requested_capacity < 2 {
        2
    } else {
        requested_capacity
    }
}

/// Occupancy of a ring with the given positions, computed without wrapping:
/// equals `(write_pos + capacity - read_pos) % capacity`.
pub fn occupancy(write_pos: usize, read_pos: usize, capacity: usize) -> (n: usize)
    requires
        write_pos < capacity,
        read_pos < capacity,
    ensures
        n == ring_occupancy(write_pos as int, read_pos as int, capacity as int),
        n < capacity,
{
    proof {
        lemma_occupancy_value(write_pos as int, read_pos as int, capacity as int);
    }
    if write_pos >= read_pos {
        write_pos - read_pos
    } else {
        capacity - read_pos + write_pos
    }
}

/// The position one past `position`, wrapping to 0 at `capacity`:
/// equals `(position + 1) % capacity`.
pub fn next_position(position: usize, capacity: usize) -> (next: usize)
    requires
        position < capacity,
    ensures
        next == (position + 1) % (capacity as int),
        next < capacity,
{
    proof {
        if position + 1 < capacity {
            lemma_small_mod((position + 1) as nat, capacity as nat);
        } else {
            lemma_mod_add_multiples_vanish(0, capacity as int);
            lemma_small_mod(0, capacity as nat);
        }
    }
    if position + 1 == capacity {
        0
    } else {
        position + 1
    }
}

/// A fixed-capacity FIFO ring buffer over preallocated slots.
///
/// Its abstract value (the view) is the sequence of queued elements, oldest
/// first.  One of the `capacity` slots is always kept free, so the ring
/// holds at most `capacity - 1` elements.
pub struct RingBuffer<T> {
    capacity: usize,
    write_pos: usize,
    read_pos: usize,
    slots: Vec<Option<T>>,
}

impl<T> RingBuffer<T> {
    /// Well-formedness: at least 2 slots, one slot per unit of capacity,
    /// positions in range, and a slot holds a value exactly when it lies in
    /// the occupied region.
    pub closed spec fn wf(&self) -> bool {
        &&& self.capacity >= 2
        &&& self.slots@.len() == self.capacity
        &&& self.write_pos < self.capacity
        &&& self.read_pos < self.capacity
        &&& forall|i: int|
            0 <= i < self.capacity ==> ((#[trigger] self.slots@[i]) is Some <==> slot_occupied(
                i,
                self.read_pos as int,
                self.write_pos as int,
            ))
    }

    /// Total number of slots, the reserved one counted in.
    pub closed spec fn spec_capacity(&self) -> int {
        self.capacity as int
    }

    /// Current number of queued elements, by the occupancy formula.
    pub closed spec fn spec_occupancy(&self) -> int {
        ring_occupancy(self.write_pos as int, self.read_pos as int, self.capacity as int)
    }
}

impl<T> View for RingBuffer<T> {
    type V = Seq<T>;

    /// The queued elements, oldest first.
    closed spec fn view(&self) -> Seq<T> {
        Seq::new(
            self.spec_occupancy() as nat,
            |k: int|
                self.slots@[slot_position(
                    self.read_pos as int,
                    k,
                    self.capacity as int,
                )].unwrap(),
        )
    }
}

/// A well-formed ring never holds more than `capacity - 1` elements: the
/// sentinel slot stays free whatever the positions are.
pub proof fn lemma_occupancy_bound<T>(ring: &RingBuffer<T>)
    requires
        ring.wf(),
    ensures
        ring@.len() <= ring.spec_capacity() - 1,
        ring.spec_capacity() >= 2,
{
    lemma_occupancy_value(
        ring.write_pos as int,
        ring.read_pos as int,
        ring.capacity as int,
    );
}

impl<T> RingBuffer<T> {
    /// Builds an empty ring.  The requested capacity is realized as it is,
    /// except that requests below 2 are raised to 2.
    pub fn new(requested_capacity: usize) -> (ring: Self)
        ensures
            ring.wf(),
            ring@ == Seq::<T>::empty(),
            ring.spec_capacity() == clamped_capacity(requested_capacity as int),
    {
        let capacity: usize = clamp_capacity(requested_capacity);
        let mut slots: Vec<Option<T>> = Vec::new();
        let mut i: usize = 0;
        while i < capacity
            invariant
                i <= capacity,
                slots@.len() == i,
                forall|j: int| 0 <= j < i ==> (#[trigger] slots@[j]) is None,
            decreases capacity - i,
        {
            slots.push(None);
            i += 1;
        }
        let ring = RingBuffer { capacity, write_pos: 0, read_pos: 0, slots };
        proof {
            lemma_occupancy_value(0, 0, capacity as int);
            assert(ring@ =~= Seq::<T>::empty());
        }
        ring
    }

    /// Total number of slots, one of which stays reserved as the sentinel
    /// gap.
    pub fn capacity(&self) -> (capacity: usize)
        ensures
            capacity == self.spec_capacity(),
    {
        self.capacity
    }

    /// Current number of queued elements; always at most `capacity - 1`.
    pub fn size(&self) -> (n: usize)
        requires
            self.wf(),
        ensures
            n == self@.len(),
            n <= self.spec_capacity() - 1,
    {
        occupancy(self.write_pos, self.read_pos, self.capacity)
    }

    /// Attempts to queue `value`.  When a free slot besides the sentinel gap
    /// is left, the value is appended at the tail and the call returns `Ok`;
    /// on a full ring the value comes back unchanged in `Err` and the ring
    /// is left as it was.
    pub fn try_write(&mut self, value: T) -> (result: Result<(), T>)
        requires
            old(self).wf(),
        ensures
            final(self).wf(),
            final(self).spec_capacity() == old(self).spec_capacity(),
            old(self)@.len() == old(self).spec_capacity() - 1 ==> result == Err::<(), T>(value)
                && final(self)@ == old(self)@,
            old(self)@.len() < old(self).spec_capacity() - 1 ==> result == Ok::<(), T>(())
                && final(self)@ == old(self)@.push(value),
    {
        let n: usize = occupancy(self.write_pos, self.read_pos, self.capacity);
        if n == self.capacity - 1 {
            return Err(value);
        }

        let w: usize = self.write_pos;
        self.slots[w] = Some(value);
        self.write_pos = next_position(w, self.capacity);

        proof {
            lemma_write_advances_view(*old(self), *self, value);
        }
        Ok(())
    }

    /// Attempts to take the oldest queued element.  On an empty ring the
    /// call returns `None` and the ring is left as it was; otherwise the
    /// head element is moved out and returned.
    pub fn try_read(&mut self) -> (result: Option<T>)
        requires
            old(self).wf(),
        ensures
            final(self).wf(),
            final(self).spec_capacity() == old(self).spec_capacity(),
            old(self)@.len() == 0 ==> result is None && final(self)@ == old(self)@,
            old(self)@.len() > 0 ==> result == Some(old(self)@[0]) && final(self)@ == old(
                self,
            )@.drop_first(),
    {
        proof {
            lemma_occupancy_value(
                self.write_pos as int,
                self.read_pos as int,
                self.capacity as int,
            );
        }
        if self.read_pos == self.write_pos {
            return None;
        }

        let r: usize = self.read_pos;
        let taken: Option<T> = self.slots[r].take();
        self.read_pos = next_position(r, self.capacity);

        proof {
            lemma_read_advances_view(*old(self), *self);
        }
        taken
    }

    /// Empties the ring by taking elements until none is left, so that every
    /// element still queued is released through the ordinary value-drop
    /// path.  The consumer side calls this when it is torn down.
    pub fn drain(&mut self)
        requires
            old(self).wf(),
        ensures
            final(self).wf(),
            final(self).spec_capacity() == old(self).spec_capacity(),
            final(self)@ == Seq::<T>::empty(),
    {
        loop
            invariant
                self.wf(),
                self.spec_capacity() == old(self).spec_capacity(),
            ensures
                self.wf(),
                self.spec_capacity() == old(self).spec_capacity(),
                self@.len() == 0,
            decreases self@.len(),
        {
            let taken: Option<T> = self.try_read();
            if taken.is_none() {
                break;
            }
        }
        proof {
            assert(self@ =~= Seq::<T>::empty());
        }
    }
}

/// After a write into a non-full ring - tail slot filled, write position
/// advanced by one - the ring is well formed again and its contents are the
/// old contents with the new value appended.
proof fn lemma_write_advances_view<T>(pre: RingBuffer<T>, post: RingBuffer<T>, value: T)
    requires
        pre.wf(),
        pre.spec_occupancy() < pre.spec_capacity() - 1,
        post.capacity == pre.capacity,
        post.read_pos == pre.read_pos,
        post.write_pos == (pre.write_pos + 1) % (pre.capacity as int),
        post.slots@ == pre.slots@.update(pre.write_pos as int, Some(value)),
    ensures
        post.wf(),
        post@ == pre@.push(value),
{
    let c: int = pre.capacity as int;
    let r: int = pre.read_pos as int;
    let w: int = pre.write_pos as int;
    let w2: int = post.write_pos as int;
    let occ: int = pre.spec_occupancy();

    lemma_occupancy_value(w, r, c);
    proof_next_position_value(w, c);
    lemma_occupancy_value(w2, r, c);
    assert(post.spec_occupancy() == occ + 1);

    assert forall|i: int| 0 <= i < c implies ((#[trigger] post.slots@[i]) is Some
        <==> slot_occupied(i, r, w2)) by {
        assert(pre.slots@[i] is Some <==> slot_occupied(i, r, w));
    }
    assert(post.wf());

    assert forall|k: int| 0 <= k < occ implies post@[k] == pre@[k] by {
        let p: int = slot_position(r, k, c);
        assert(slot_occupied(p, r, w));
        assert(post.slots@[p] == pre.slots@[p]);
    }
    assert(slot_position(r, occ, c) == w);
    assert(post@[occ] == value);
    assert(post@ =~= pre@.push(value));
}

/// After a read from a non-empty ring - head slot cleared, read position
/// advanced by one - the ring is well formed again and its contents are the
/// old contents with the head removed.
proof fn lemma_read_advances_view<T>(pre: RingBuffer<T>, post: RingBuffer<T>)
    requires
        pre.wf(),
        pre.read_pos != pre.write_pos,
        post.capacity == pre.capacity,
        post.write_pos == pre.write_pos,
        post.read_pos == (pre.read_pos + 1) % (pre.capacity as int),
        post.slots@ == pre.slots@.update(pre.read_pos as int, None::<T>),
    ensures
        post.wf(),
        post@ == pre@.drop_first(),
{
    let c: int = pre.capacity as int;
    let r: int = pre.read_pos as int;
    let w: int = pre.write_pos as int;
    let r2: int = post.read_pos as int;
    let occ: int = pre.spec_occupancy();

    lemma_occupancy_value(w, r, c);
    proof_next_position_value(r, c);
    lemma_occupancy_value(w, r2, c);
    assert(post.spec_occupancy() == occ - 1);

    assert forall|i: int| 0 <= i < c implies ((#[trigger] post.slots@[i]) is Some
        <==> slot_occupied(i, r2, w)) by {
        assert(pre.slots@[i] is Some <==> slot_occupied(i, r, w));
    }
    assert(post.wf());

    assert forall|k: int| 0 <= k < occ - 1 implies post@[k] == pre@[k + 1] by {
        let p: int = slot_position(r2, k, c);
        assert(p == slot_position(r, k + 1, c));
        assert(slot_occupied(p, r, w));
        assert(post.slots@[p] == pre.slots@[p]);
    }
    assert(post@ =~= pre@.drop_first());
}

/// Value of the advanced position `(position + 1) % capacity` in wrap-free
/// form.
proof fn proof_next_position_value(position: int, capacity: int)
    requires
        0 <= position < capacity,
    ensures
        (position + 1) % capacity == if position + 1 < capacity {
            position + 1
        } else {
            0
        },
{
    if position + 1 < capacity {
        lemma_small_mod((position + 1) as nat, capacity as nat);
    } else {
        lemma_mod_add_multiples_vanish(0, capacity);
        lemma_small_mod(0, capacity as nat);
    }
}

} // verus!
