//! The exponential moving average, which starts out as a plain mean.
use crate::average_trait::AverageTrait;
use crate::scalar::{
    is_count, is_difference, is_mean, is_nan, is_one, is_product, is_quotient, is_sum, is_total,
    is_zero, lemma_total_push, Scalar,
};
use vstd::prelude::*;

verus! {

/// The number by which the mean is weighted when the `count`-th sample comes
/// in: the count itself while it is below the time constant, the time
/// constant from then on.
pub open spec fn weight_at(time_constant: nat, count: nat) -> nat {
    if count < time_constant {
        count
    } else {
        time_constant
    }
}

/// `kept` is a value of `(weight - 1) * mean`: what is kept of the mean when
/// a sample comes in with that weight.
pub open spec fn is_kept<V: Scalar>(weight: V, mean: V, kept: V) -> bool {
    exists|unit: V, rest: V|
        is_one(unit) && #[trigger] is_difference(weight, unit, rest) && is_product(
            rest,
            mean,
            kept,
        )
}

/// `next` is a mean that may follow `mean` when `value` comes in with weight
/// `t`: a value of `((t - 1) * mean + value) / t`, where both `t` are one and
/// the same conversion of the weight.
pub open spec fn is_ema_step<V: Scalar>(t: nat, mean: V, value: V, next: V) -> bool {
    exists|weight: V, kept: V, mixed: V|
        #![trigger is_kept(weight, mean, kept), is_quotient(mixed, weight, next)]
        {
            &&& is_count(t, weight)
            &&& is_kept(weight, mean, kept)
            &&& is_sum(kept, value, mixed)
            &&& is_quotient(mixed, weight, next)
        }
}

/// `mean` is a mean that an exponential moving average with the given time
/// constant may hold after `samples`: it starts from a zero and takes one
/// step for each sample, weighted by [`weight_at`].
pub open spec fn is_ema<V: Scalar>(time_constant: nat, samples: Seq<V>, mean: V) -> bool
    decreases samples.len(),
{
    if samples.len() == 0 {
        is_zero(mean)
    } else {
        exists|before: V|
            is_ema(time_constant, samples.drop_last(), before) && #[trigger] is_ema_step(
                weight_at(time_constant, samples.len()),
                before,
                samples.last(),
                mean,
            )
    }
}

/// `mean` is a value that the mean of `samples` may come to, where the mean of
/// no samples is a zero: what an exponential moving average is meant to hold
/// during its ramp-up.
pub open spec fn is_ramp_mean<V: Scalar>(samples: Seq<V>, mean: V) -> bool {
    if samples.len() == 0 {
        is_zero(mean)
    } else {
        is_mean(samples, mean)
    }
}

/// What is kept of a mean of `earlier` when the next sample comes in during
/// the ramp-up is a total of `earlier`: multiplying the mean by the number of
/// samples gives back their sum. Arithmetic that does not round has this
/// property; floating-point arithmetic has it for some samples only.
pub open spec fn rescaling_is_exact<V: Scalar>(earlier: Seq<V>) -> bool {
    forall|mean: V, weight: V, kept: V|
        is_ramp_mean(earlier, mean) && is_count(earlier.len() + 1, weight) && #[trigger] is_kept(
            weight,
            mean,
            kept,
        ) ==> is_total(earlier, kept)
}

/// Every rescaling that happened while `samples` came in was exact.
pub open spec fn ramp_up_is_exact<V: Scalar>(samples: Seq<V>) -> bool {
    forall|n: int| 0 <= n < samples.len() ==> rescaling_is_exact(#[trigger] samples.take(n))
}

/// Where every rescaling was exact, the mean that an exponential moving
/// average holds during its ramp-up is the plain mean of all samples.
pub proof fn lemma_exact_ramp_up<V: Scalar>(time_constant: nat, samples: Seq<V>, mean: V)
    requires
        samples.len() <= time_constant,
        ramp_up_is_exact(samples),
        is_ema(time_constant, samples, mean),
    ensures
        is_ramp_mean(samples, mean),
    decreases samples.len(),
{
    if samples.len() > 0 {
        let earlier = samples.drop_last();
        let value = samples.last();
        let before = choose|before: V|
            is_ema(time_constant, earlier, before) && #[trigger] is_ema_step(
                weight_at(time_constant, samples.len()),
                before,
                value,
                mean,
            );
        assert forall|n: int| 0 <= n < earlier.len() implies rescaling_is_exact(
            #[trigger] earlier.take(n),
        ) by {
            assert(earlier.take(n) =~= samples.take(n));
        }
        lemma_exact_ramp_up(time_constant, earlier, before);
        assert(samples.take(earlier.len() as int) =~= earlier);
        let (weight, kept, mixed) = choose|weight: V, kept: V, mixed: V|
            #![trigger is_kept(weight, before, kept), is_quotient(mixed, weight, mean)]
            {
                &&& is_count(samples.len(), weight)
                &&& is_kept(weight, before, kept)
                &&& is_sum(kept, value, mixed)
                &&& is_quotient(mixed, weight, mean)
            };
        lemma_total_push(earlier, kept, value, mixed);
        assert(earlier.push(value) =~= samples);
    }
}

/// During the ramp-up, that is while there are no more samples than the time
/// constant, the time constant plays no part: the mean is one that the same
/// samples may have led to under any other time constant that they do not
/// exceed either.
pub proof fn lemma_ramp_up<V: Scalar>(time_constant: nat, other: nat, samples: Seq<V>, mean: V)
    requires
        samples.len() <= time_constant,
        samples.len() <= other,
        is_ema(time_constant, samples, mean),
    ensures
        is_ema(other, samples, mean),
    decreases samples.len(),
{
    if samples.len() > 0 {
        let before = choose|before: V|
            is_ema(time_constant, samples.drop_last(), before) && #[trigger] is_ema_step(
                weight_at(time_constant, samples.len()),
                before,
                samples.last(),
                mean,
            );
        lemma_ramp_up(time_constant, other, samples.drop_last(), before);
        assert(weight_at(other, samples.len()) == weight_at(time_constant, samples.len()));
    }
}

/// A mean in which a sample's weight fades as later samples come in.
pub struct ExponentialMovingAverage<ValueT> {
    time_constant: usize,
    count: usize,
    mean: ValueT,
    samples: Ghost<Seq<ValueT>>,
}

impl<ValueT: Scalar> ExponentialMovingAverage<ValueT> {
    /// The time constant that the accumulator was made with.
    pub closed spec fn spec_time_constant(&self) -> nat {
        self.time_constant as nat
    }

    /// The mean that the accumulator holds.
    pub closed spec fn mean(&self) -> ValueT {
        self.mean
    }

    /// An accumulator in the state in which `new` makes it for the given time
    /// constant: no samples, and a zero as mean.
    pub open spec fn is_new(&self, time_constant: nat) -> bool {
        &&& self.wf()
        &&& self.spec_time_constant() == time_constant
        &&& self.samples() == Seq::<ValueT>::empty()
        &&& is_zero(self.mean())
    }

    /// An empty accumulator with the given time constant.
    pub fn new(time_constant: usize) -> (r: Self)
        requires
            time_constant > 0,
        ensures
            r.is_new(time_constant as nat),
            r.has_room(),
    {
        ExponentialMovingAverage {
            time_constant,
            count: 0,
            mean: ValueT::zero(),
            samples: Ghost(Seq::empty()),
        }
    }

    /// The time constant.
    pub fn time_constant(&self) -> (n: usize)
        requires
            self.wf(),
        ensures
            n == self.spec_time_constant(),
            n > 0,
    {
        self.time_constant
    }

    /// Where every rescaling was exact, the value during the ramp-up is the
    /// mean of all samples, as a cumulative average would report it.
    pub proof fn lemma_exact_ramp_value(&self, r: ValueT)
        requires
            self.wf(),
            self.samples().len() <= self.spec_time_constant(),
            ramp_up_is_exact(self.samples()),
            self.is_value(r),
        ensures
            is_mean(self.samples(), r),
    {
        lemma_exact_ramp_up(self.spec_time_constant(), self.samples(), self.mean());
    }
}

impl<ValueT: Scalar> AverageTrait<ValueT> for ExponentialMovingAverage<ValueT> {
    /// The time constant is positive, the count is the number of samples, and
    /// the mean is one that the samples may have led to.
    open spec fn wf(&self) -> bool {
        &&& 0 < self.spec_time_constant() <= usize::MAX
        &&& self.spec_count() == self.samples().len()
        &&& self.spec_count() <= usize::MAX
        &&& is_ema(self.spec_time_constant(), self.samples(), self.mean())
    }

    closed spec fn samples(&self) -> Seq<ValueT> {
        self.samples@
    }

    closed spec fn spec_count(&self) -> nat {
        self.count as nat
    }

    open spec fn has_room(&self) -> bool {
        self.spec_count() < usize::MAX
    }

    /// With no samples, "not a number"; else the mean as it is held.
    open spec fn is_value(&self, r: ValueT) -> bool {
        if self.spec_count() == 0 {
            is_nan(r)
        } else {
            r == self.mean()
        }
    }

    /// Clearing leaves the state of a new accumulator with the same time
    /// constant, whatever was there.
    open spec fn is_cleared(&self, before: &Self) -> bool {
        self.is_new(before.spec_time_constant())
    }

    /// Every sample counts, also beyond the time constant.
    fn count(&self) -> (n: usize)
        ensures
            n == self.samples().len(),
    {
        self.count
    }

    /// A mean that the samples may have led to, by the steps of [`is_ema`].
    fn value(&self) -> (r: ValueT)
        ensures
            self.samples().len() > 0 ==> is_ema(self.spec_time_constant(), self.samples(), r),
    {
        if self.count != 0 {
            self.mean
        } else {
            ValueT::nan()
        }
    }

    /// The mean takes one step, weighted by the new count or, once that is
    /// reached, by the time constant.
    fn add(&mut self, value: ValueT)
        ensures
            final(self).spec_time_constant() == old(self).spec_time_constant(),
            final(self).spec_count() == old(self).spec_count() + 1,
            is_ema_step(
                weight_at(old(self).spec_time_constant(), old(self).spec_count() + 1),
                old(self).mean(),
                value,
                final(self).mean(),
            ),
    {
        self.count = self.count + 1;
        let t: usize = if self.count < self.time_constant {
            self.count
        } else {
            self.time_constant
        };
        let weight = ValueT::from_count(t);
        let unit = ValueT::one();
        let rest = weight.minus(unit);
        let kept = rest.times(self.mean);
        let mixed = kept.plus(value);
        let mean = mixed.over(weight);
        proof {
            assert(is_kept(weight, self.mean, kept)) by {
                assert(is_difference(weight, unit, rest));
            }
            assert(is_ema_step(t as nat, self.mean, value, mean)) by {
                assert(is_quotient(mixed, weight, mean));
            }
            let longer = self.samples@.push(value);
            assert(longer.drop_last() =~= self.samples@);
            assert(is_ema_step(
                weight_at(self.spec_time_constant(), longer.len()),
                self.mean,
                longer.last(),
                mean,
            ));
        }
        self.mean = mean;
        self.samples = Ghost(self.samples@.push(value));
    }

    fn clear(&mut self) {
        self.count = 0;
        self.mean = ValueT::zero();
        self.samples = Ghost(Seq::empty());
    }

    proof fn lemma_has_room(&self) {
    }

    proof fn lemma_clear_twice(before: &Self, once: &Self, twice: &Self) {
    }

    proof fn lemma_clear_of_empty(before: &Self, after: &Self) {
    }
}

} // verus!
