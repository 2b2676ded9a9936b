//! What a window over the most recent samples holds and sums to.
use crate::scalar::{is_difference, is_sum, is_total, is_zero, lemma_total_push, Scalar};
use vstd::prelude::*;

verus! {

/// The last `capacity` of `samples`, or all of them where there are fewer.
pub open spec fn last_window<V>(samples: Seq<V>, capacity: nat) -> Seq<V> {
    if samples.len() <= capacity {
        samples
    } else {
        samples.subrange(samples.len() - capacity, samples.len() as int)
    }
}

/// The sample that leaves a window of `capacity` samples when one more is
/// added after `samples`: the oldest of the last `capacity`, once that many
/// are there.
pub open spec fn evicted_after<V>(samples: Seq<V>, capacity: nat) -> Option<V> {
    if samples.len() < capacity {
        None
    } else {
        Some(samples[samples.len() - capacity])
    }
}

/// `next` is a running sum that may follow `total` when `value` enters the
/// window: with `evicted` leaving, a value of `(total - evicted) + value`;
/// with nothing leaving, a value of `total + value`.
pub open spec fn is_window_step<V: Scalar>(
    total: V,
    evicted: Option<V>,
    value: V,
    next: V,
) -> bool {
    match evicted {
        Some(oldest) => exists|reduced: V|
            is_difference(total, oldest, reduced) && #[trigger] is_sum(reduced, value, next),
        None => is_sum(total, value, next),
    }
}

/// `total` is a running sum that a window of `capacity` samples may hold after
/// `samples` went through it one by one: it starts from a zero, and each
/// sample is added after the sample that it pushes out, if any, was
/// subtracted.
pub open spec fn is_window_total<V: Scalar>(samples: Seq<V>, capacity: nat, total: V) -> bool
    decreases samples.len(),
{
    if samples.len() == 0 {
        is_zero(total)
    } else {
        exists|before: V|
            is_window_total(samples.drop_last(), capacity, before) && #[trigger] is_window_step(
                before,
                evicted_after(samples.drop_last(), capacity),
                samples.last(),
                total,
            )
    }
}

/// Taking the oldest sample of `window` out of a total of it leaves a total
/// of the others. Arithmetic that does not round has this property;
/// floating-point arithmetic has it for some windows only.
pub open spec fn eviction_is_exact<V: Scalar>(window: Seq<V>) -> bool {
    forall|total: V, reduced: V|
        is_total(window, total) && #[trigger] is_difference(total, window[0], reduced)
            ==> is_total(window.skip(1), reduced)
}

/// The full window out of which the sample at position `end` pushed the
/// oldest.
pub open spec fn window_before<V>(samples: Seq<V>, capacity: nat, end: int) -> Seq<V> {
    samples.subrange(end - capacity, end)
}

/// Every eviction that happened while `samples` went through a window of
/// `capacity` samples was exact.
pub open spec fn evictions_are_exact<V: Scalar>(samples: Seq<V>, capacity: nat) -> bool {
    forall|end: int|
        capacity <= end < samples.len() ==> eviction_is_exact(
            #[trigger] window_before(samples, capacity, end),
        )
}

/// While the window is filling, its running sum is a plain left-to-right
/// total of all samples.
pub proof fn lemma_filling_window_total<V: Scalar>(samples: Seq<V>, capacity: nat, total: V)
    requires
        samples.len() <= capacity,
        is_window_total(samples, capacity, total),
    ensures
        is_total(samples, total),
    decreases samples.len(),
{
    if samples.len() > 0 {
        let before = choose|before: V|
            is_window_total(samples.drop_last(), capacity, before) && #[trigger] is_window_step(
                before,
                evicted_after(samples.drop_last(), capacity),
                samples.last(),
                total,
            );
        lemma_filling_window_total(samples.drop_last(), capacity, before);
        lemma_total_push(samples.drop_last(), before, samples.last(), total);
        assert(samples.drop_last().push(samples.last()) =~= samples);
    }
}

/// Where every eviction was exact, the running sum of the window is a
/// left-to-right total of exactly the samples that are in the window.
pub proof fn lemma_exact_window_total<V: Scalar>(samples: Seq<V>, capacity: nat, total: V)
    requires
        capacity > 0,
        evictions_are_exact(samples, capacity),
        is_window_total(samples, capacity, total),
    ensures
        is_total(last_window(samples, capacity), total),
    decreases samples.len(),
{
    if samples.len() > 0 {
        let earlier = samples.drop_last();
        let value = samples.last();
        let before = choose|before: V|
            is_window_total(earlier, capacity, before) && #[trigger] is_window_step(
                before,
                evicted_after(earlier, capacity),
                value,
                total,
            );
        assert forall|end: int| capacity <= end < earlier.len() implies eviction_is_exact(
            #[trigger] window_before(earlier, capacity, end),
        ) by {
            assert(window_before(earlier, capacity, end) =~= window_before(samples, capacity, end));
        }
        lemma_exact_window_total(earlier, capacity, before);
        if earlier.len() < capacity {
            lemma_total_push(earlier, before, value, total);
            assert(earlier.push(value) =~= last_window(samples, capacity));
        } else {
            let full = window_before(samples, capacity, earlier.len() as int);
            assert(full =~= last_window(earlier, capacity));
            assert(eviction_is_exact(full));
            let reduced = choose|reduced: V|
                is_difference(before, full[0], reduced) && #[trigger] is_sum(reduced, value, total);
            lemma_total_push(full.skip(1), reduced, value, total);
            assert(full.skip(1).push(value) =~= last_window(samples, capacity));
        }
    }
}

} // verus!
