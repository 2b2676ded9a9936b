//! The moving average over a fixed window, kept in a ring of slots.
use crate::average_trait::AverageTrait;
use crate::scalar::{is_count, is_mean, is_nan, is_quotient, is_sum, is_zero, Scalar};
use crate::window::{
    evicted_after, evictions_are_exact, is_window_step, is_window_total, last_window,
    lemma_exact_window_total, lemma_filling_window_total,
};
use vstd::arithmetic::div_mod::{lemma_mod_sub_multiples_vanish, lemma_small_mod};
use vstd::prelude::*;

verus! {

/// The slot that lies `offset` places after slot `first` in a ring of
/// `capacity` slots.
pub open spec fn slot(first: int, offset: int, capacity: int) -> int {
    (first + offset) % capacity
}

/// Within two turns of the ring, the slot is found without a division.
pub proof fn lemma_slot(first: int, offset: int, capacity: int)
    requires
        0 <= first < capacity,
        0 <= offset <= capacity,
    ensures
        first + offset < capacity ==> slot(first, offset, capacity) == first + offset,
        first + offset >= capacity ==> slot(first, offset, capacity) == first + offset - capacity,
{
    if first + offset < capacity {
        lemma_small_mod((first + offset) as nat, capacity as nat);
    } else {
        lemma_small_mod((first + offset - capacity) as nat, capacity as nat);
        lemma_mod_sub_multiples_vanish(first + offset, capacity);
    }
}

/// Computes [`slot`] without leaving `usize`.
fn slot_after(first: usize, offset: usize, capacity: usize) -> (r: usize)
    requires
        first < capacity,
        offset <= capacity,
    ensures
        r == slot(first as int, offset as int, capacity as int),
        r < capacity,
{
    proof {
        lemma_slot(first as int, offset as int, capacity as int);
    }
    if offset >= capacity - first {
        offset - (capacity - first)
    } else {
        first + offset
    }
}

/// A mean over the most recent samples, as many as the window holds.
pub struct MovingAverage<ValueT> {
    ring_buffer: Vec<ValueT>,
    first: usize,
    count: usize,
    sum: ValueT,
    samples: Ghost<Seq<ValueT>>,
}

impl<ValueT: Scalar> MovingAverage<ValueT> {
    /// The number of slots, which is the length of the window.
    pub closed spec fn capacity(&self) -> nat {
        self.ring_buffer@.len()
    }

    /// What the slots hold, by position.
    pub closed spec fn slots(&self) -> Seq<ValueT> {
        self.ring_buffer@
    }

    /// The position of the slot that holds the oldest sample of the window.
    pub closed spec fn first(&self) -> nat {
        self.first as nat
    }

    /// The running sum that the accumulator holds.
    pub closed spec fn total(&self) -> ValueT {
        self.sum
    }

    /// The samples that contribute: the most recent ones, oldest first.
    pub open spec fn window(&self) -> Seq<ValueT> {
        last_window(self.samples(), self.capacity())
    }

    /// An accumulator in the state in which `new` makes it for a window of
    /// `capacity` samples: nothing in the window, a zero as running sum, and
    /// "not a number" in every slot.
    pub open spec fn is_new(&self, capacity: nat) -> bool {
        &&& self.wf()
        &&& self.capacity() == capacity
        &&& self.first() == 0
        &&& self.samples() == Seq::<ValueT>::empty()
        &&& is_zero(self.total())
        &&& forall|i: int| 0 <= i < capacity ==> is_nan(#[trigger] self.slots()[i])
    }

    /// An empty accumulator with a window of `time_constant` samples.
    pub fn new(time_constant: usize) -> (r: Self)
        requires
            time_constant > 0,
        ensures
            r.is_new(time_constant as nat),
            r.has_room(),
    {
        let nan = ValueT::nan();
        let mut ring_buffer: Vec<ValueT> = Vec::with_capacity(time_constant);
        while ring_buffer.len() < time_constant
            invariant
                ring_buffer@.len() <= time_constant,
                is_nan(nan),
                forall|i: int| 0 <= i < ring_buffer@.len() ==> ring_buffer@[i] == nan,
            decreases time_constant - ring_buffer@.len(),
        {
            ring_buffer.push(nan);
        }
        MovingAverage {
            ring_buffer,
            first: 0,
            count: 0,
            sum: ValueT::zero(),
            samples: Ghost(Seq::empty()),
        }
    }

    /// The length of the window.
    pub fn time_constant(&self) -> (n: usize)
        requires
            self.wf(),
        ensures
            n == self.capacity(),
            n > 0,
    {
        self.ring_buffer.len()
    }

    /// Clearing a new accumulator leaves a new accumulator: the slots still
    /// hold "not a number".
    pub proof fn lemma_clear_of_new(before: &Self, after: &Self, capacity: nat)
        requires
            before.is_new(capacity),
            after.is_cleared(before),
        ensures
            after.is_new(capacity),
    {
    }

    /// Where every eviction was exact, the value is the mean of exactly the
    /// samples that are in the window.
    pub proof fn lemma_exact_value(&self, r: ValueT)
        requires
            self.wf(),
            evictions_are_exact(self.samples(), self.capacity()),
            self.is_value(r),
        ensures
            is_mean(self.window(), r),
    {
        lemma_exact_window_total(self.samples(), self.capacity(), self.total());
    }
}

impl<ValueT: Scalar> AverageTrait<ValueT> for MovingAverage<ValueT> {
    /// There is at least one slot. The count is the length of the window,
    /// the samples of the window lie in consecutive slots of the ring from
    /// `first` on, and the running sum is one that the samples may have led
    /// to.
    open spec fn wf(&self) -> bool {
        &&& 0 < self.capacity() <= usize::MAX
        &&& self.slots().len() == self.capacity()
        &&& self.first() < self.capacity()
        &&& self.spec_count() == self.window().len()
        &&& forall|i: int|
            0 <= i < self.spec_count() ==> self.slots()[#[trigger] slot(
                self.first() as int,
                i,
                self.capacity() as int,
            )] == self.window()[i]
        &&& is_window_total(self.samples(), self.capacity(), self.total())
    }

    closed spec fn samples(&self) -> Seq<ValueT> {
        self.samples@
    }

    closed spec fn spec_count(&self) -> nat {
        self.count as nat
    }

    /// The count never exceeds the length of the window.
    open spec fn has_room(&self) -> bool {
        true
    }

    /// With an empty window, "not a number"; else the running sum divided by
    /// the converted count.
    open spec fn is_value(&self, r: ValueT) -> bool {
        if self.spec_count() == 0 {
            is_nan(r)
        } else {
            exists|n: ValueT|
                is_count(self.spec_count(), n) && #[trigger] is_quotient(self.total(), n, r)
        }
    }

    /// Clearing empties the window and leaves a zero as running sum; the
    /// slots keep what they held.
    open spec fn is_cleared(&self, before: &Self) -> bool {
        &&& self.wf()
        &&& self.capacity() == before.capacity()
        &&& self.first() == 0
        &&& self.samples() == Seq::<ValueT>::empty()
        &&& is_zero(self.total())
        &&& self.slots() == before.slots()
    }

    /// All samples while there are no more than the window holds; from then
    /// on, the length of the window.
    fn count(&self) -> (n: usize)
        ensures
            n == self.window().len(),
            self.samples().len() <= self.capacity() ==> n == self.samples().len(),
            self.samples().len() > self.capacity() ==> n == self.capacity(),
    {
        self.count
    }

    /// While the window is filling, the mean of all samples.
    fn value(&self) -> (r: ValueT)
        ensures
            self.samples().len() <= self.capacity() ==> is_mean(self.samples(), r),
    {
        proof {
            if self.samples().len() <= self.capacity() {
                lemma_filling_window_total(self.samples(), self.capacity(), self.total());
            }
        }
        if self.count == 0 {
            ValueT::nan()
        } else {
            let n = ValueT::from_count(self.count);
            let r = self.sum.over(n);
            assert(is_quotient(self.total(), n, r));
            r
        }
    }

    /// A full window gives up its oldest sample, whose slot the new sample
    /// takes; a window that is filling grows by the next slot.
    fn add(&mut self, value: ValueT)
        ensures
            final(self).capacity() == old(self).capacity(),
            final(self).window() == last_window(
                old(self).window().push(value),
                old(self).capacity(),
            ),
            final(self).spec_count() == final(self).window().len(),
            old(self).spec_count() < old(self).capacity()
                ==> final(self).first() == old(self).first(),
            old(self).spec_count() == old(self).capacity()
                ==> final(self).first() == slot(
                old(self).first() as int,
                1,
                old(self).capacity() as int,
            ),
            final(self).slots() == old(self).slots().update(
                slot(
                    final(self).first() as int,
                    final(self).spec_count() - 1,
                    final(self).capacity() as int,
                ),
                value,
            ),
            is_window_step(
                old(self).total(),
                evicted_after(old(self).samples(), old(self).capacity()),
                value,
                final(self).total(),
            ),
    {
        let capacity: usize = self.ring_buffer.len();
        let mut reduced = self.sum;
        if self.count == capacity {
            let oldest = self.ring_buffer[self.first];
            proof {
                lemma_slot(self.first as int, 0, capacity as int);
                assert(oldest == self.window()[0]);
                assert(evicted_after(self.samples(), capacity as nat) == Some(oldest));
            }
            reduced = reduced.minus(oldest);
            self.first = slot_after(self.first, 1, capacity);
        } else {
            self.count = self.count + 1;
        }
        let last: usize = slot_after(self.first, self.count - 1, capacity);
        self.ring_buffer.set(last, value);
        self.sum = reduced.plus(value);
        self.samples = Ghost(self.samples@.push(value));
        proof {
            assert(self.samples().drop_last() =~= old(self).samples());
            assert(is_sum(reduced, value, self.total()));
            assert(is_window_step(
                old(self).total(),
                evicted_after(self.samples().drop_last(), capacity as nat),
                self.samples().last(),
                self.total(),
            ));
            assert(self.window() =~= last_window(old(self).window().push(value), capacity as nat));
            assert forall|i: int| 0 <= i < self.spec_count() implies self.slots()[#[trigger] slot(
                self.first() as int,
                i,
                self.capacity() as int,
            )] == self.window()[i] by {
                lemma_slot(self.first() as int, i, capacity as int);
                lemma_slot(self.first() as int, self.count - 1, capacity as int);
                if i < self.count - 1 {
                    if old(self).spec_count() == capacity {
                        lemma_slot(old(self).first() as int, 1, capacity as int);
                        lemma_slot(old(self).first() as int, i + 1, capacity as int);
                        assert(old(self).window()[i + 1] == self.window()[i]);
                    } else {
                        lemma_slot(old(self).first() as int, i, capacity as int);
                        assert(old(self).window()[i] == self.window()[i]);
                    }
                }
            }
        }
    }

    fn clear(&mut self) {
        self.first = 0;
        self.count = 0;
        self.sum = ValueT::zero();
        self.samples = Ghost(Seq::empty());
    }

    proof fn lemma_has_room(&self) {
    }

    proof fn lemma_clear_twice(before: &Self, once: &Self, twice: &Self) {
    }

    proof fn lemma_clear_of_empty(before: &Self, after: &Self) {
    }
}

} // verus!
