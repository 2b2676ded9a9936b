//! The cumulative average: the mean of every sample since the last reset.
use crate::average_trait::AverageTrait;
use crate::scalar::{
    is_count, is_mean, is_nan, is_quotient, is_sum, is_total, is_zero, lemma_total_push, Scalar,
};
use vstd::prelude::*;

verus! {

/// A running mean over all samples added so far.
pub struct Average<ValueT> {
    count: usize,
    sum: ValueT,
    samples: Ghost<Seq<ValueT>>,
}

impl<ValueT: Scalar> Average<ValueT> {
    /// The running sum that the accumulator holds.
    pub closed spec fn total(&self) -> ValueT {
        self.sum
    }

    /// An accumulator in the state in which `new` makes it: no samples, and a
    /// zero as running sum.
    pub open spec fn is_new(&self) -> bool {
        &&& self.wf()
        &&& self.samples() == Seq::<ValueT>::empty()
        &&& is_zero(self.total())
    }

    /// An empty accumulator.
    pub fn new() -> (r: Self)
        ensures
            r.is_new(),
            r.has_room(),
    {
        Average { count: 0, sum: ValueT::zero(), samples: Ghost(Seq::empty()) }
    }
}

impl<ValueT: Scalar> Default for Average<ValueT> {
    /// The same as [`Average::new`].
    fn default() -> (r: Self)
        ensures
            r.is_new(),
            r.has_room(),
    {
        Average::new()
    }
}

impl<ValueT: Scalar> AverageTrait<ValueT> for Average<ValueT> {
    /// The count is the number of samples, and the running sum is a
    /// left-to-right total of them.
    open spec fn wf(&self) -> bool {
        &&& self.spec_count() == self.samples().len()
        &&& self.spec_count() <= usize::MAX
        &&& is_total(self.samples(), self.total())
    }

    closed spec fn samples(&self) -> Seq<ValueT> {
        self.samples@
    }

    closed spec fn spec_count(&self) -> nat {
        self.count as nat
    }

    open spec fn has_room(&self) -> bool {
        self.spec_count() < usize::MAX
    }

    /// With no samples, "not a number"; else the running sum divided by the
    /// converted count.
    open spec fn is_value(&self, r: ValueT) -> bool {
        if self.spec_count() == 0 {
            is_nan(r)
        } else {
            exists|n: ValueT|
                is_count(self.spec_count(), n) && #[trigger] is_quotient(self.total(), n, r)
        }
    }

    /// Clearing leaves the state of a new accumulator, whatever was there.
    open spec fn is_cleared(&self, before: &Self) -> bool {
        self.is_new()
    }

    /// Every sample counts.
    fn count(&self) -> (n: usize)
        ensures
            n == self.samples().len(),
    {
        self.count
    }

    /// The mean of all samples since the accumulator was made or last
    /// cleared.
    fn value(&self) -> (r: ValueT)
        ensures
            is_mean(self.samples(), r),
    {
        if self.count == 0 {
            ValueT::nan()
        } else {
            let n = ValueT::from_count(self.count);
            let r = self.sum.over(n);
            assert(is_quotient(self.total(), n, r));
            r
        }
    }

    /// The count grows by one and the sample is added to the running sum.
    fn add(&mut self, value: ValueT)
        ensures
            final(self).spec_count() == old(self).spec_count() + 1,
            is_sum(old(self).total(), value, final(self).total()),
    {
        let sum = self.sum.plus(value);
        proof {
            lemma_total_push(self.samples@, self.sum, value, sum);
        }
        self.count = self.count + 1;
        self.sum = sum;
        self.samples = Ghost(self.samples@.push(value));
    }

    fn clear(&mut self) {
        self.count = 0;
        self.sum = ValueT::zero();
        self.samples = Ghost(Seq::empty());
    }

    proof fn lemma_has_room(&self) {
    }

    proof fn lemma_clear_twice(before: &Self, once: &Self, twice: &Self) {
    }

    proof fn lemma_clear_of_empty(before: &Self, after: &Self) {
    }
}

} // verus!
