//! The contract that the three accumulators share.
use crate::scalar::{is_nan, Scalar};
use vstd::prelude::*;

verus! {

/// An accumulator: it takes in samples one at a time and reports a running
/// statistic of them.
///
/// The model of an accumulator is the sequence of samples it was given since
/// it was made or last cleared, oldest first. Each implementation says how
/// many of them it counts and which values it may report for them.
pub trait AverageTrait<ValueT: Scalar> {
    /// The accumulator's parts are consistent with one another and with
    /// [`samples`](Self::samples).
    spec fn wf(&self) -> bool;

    /// The samples added since construction or the last `clear`, oldest first.
    spec fn samples(&self) -> Seq<ValueT>;

    /// The number that `count` reports.
    spec fn spec_count(&self) -> nat;

    /// One more sample can be added without the count leaving `usize`.
    spec fn has_room(&self) -> bool;

    /// `r` is a value that `value` may report in this state.
    spec fn is_value(&self, r: ValueT) -> bool;

    /// `self` is a state in which `clear` may leave `before`.
    spec fn is_cleared(&self, before: &Self) -> bool;

    /// The number of samples that contribute to the statistic.
    fn count(&self) -> (n: usize)
        requires
            self.wf(),
        ensures
            n == self.spec_count(),
    ;

    /// The current statistic; "not a number" while nothing contributes.
    fn value(&self) -> (r: ValueT)
        requires
            self.wf(),
        ensures
            self.is_value(r),
            self.spec_count() == 0 ==> is_nan(r),
    ;

    /// Takes in one sample.
    fn add(&mut self, value: ValueT)
        requires
            old(self).wf(),
            old(self).has_room(),
        ensures
            final(self).wf(),
            final(self).samples() == old(self).samples().push(value),
            final(self).spec_count() > 0,
    ;

    /// Forgets every sample, keeping the configuration.
    fn clear(&mut self)
        requires
            old(self).wf(),
        ensures
            final(self).is_cleared(old(self)),
            final(self).wf(),
            final(self).has_room(),
            final(self).samples() == Seq::<ValueT>::empty(),
            final(self).spec_count() == 0,
    ;

    /// An accumulator whose count is below the largest `usize` has room: a
    /// caller that cannot see the implementation can find out by `count`.
    proof fn lemma_has_room(&self)
        requires
            self.wf(),
            self.spec_count() < usize::MAX,
        ensures
            self.has_room(),
    ;

    /// Clearing twice in a row leaves a state that clearing once may leave.
    proof fn lemma_clear_twice(before: &Self, once: &Self, twice: &Self)
        requires
            before.wf(),
            once.is_cleared(before),
            twice.is_cleared(once),
        ensures
            twice.is_cleared(before),
    ;

    /// Clearing an accumulator that holds no samples, such as a new one or
    /// one that was just cleared, changes nothing that `count` and `value`
    /// show.
    proof fn lemma_clear_of_empty(before: &Self, after: &Self)
        requires
            before.wf(),
            before.samples().len() == 0,
            after.is_cleared(before),
        ensures
            after.spec_count() == before.spec_count(),
            forall|r: ValueT| after.is_value(r) <==> before.is_value(r),
    ;
}

} // verus!
