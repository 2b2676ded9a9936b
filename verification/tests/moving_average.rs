use averages::{AverageTrait, MovingAverage, Scalar};

#[derive(Clone, Copy, Debug, PartialEq)]
struct Real<T>(T);

impl<T: num::Float> Scalar for Real<T> {
    fn zero() -> Self {
        Real(T::zero())
    }

    fn one() -> Self {
        Real(T::one())
    }

    fn nan() -> Self {
        Real(T::nan())
    }

    fn from_count(n: usize) -> Self {
        Real(T::from(n).unwrap())
    }

    fn plus(self, rhs: Self) -> Self {
        Real(self.0 + rhs.0)
    }

    fn minus(self, rhs: Self) -> Self {
        Real(self.0 - rhs.0)
    }

    fn times(self, rhs: Self) -> Self {
        Real(self.0 * rhs.0)
    }

    fn over(self, rhs: Self) -> Self {
        Real(self.0 / rhs.0)
    }
}

/// Whole numbers with exact arithmetic; `i64::MIN` stands for "not a number".
#[derive(Clone, Copy, Debug, PartialEq)]
struct Whole(i64);

impl Scalar for Whole {
    fn zero() -> Self {
        Whole(0)
    }

    fn one() -> Self {
        Whole(1)
    }

    fn nan() -> Self {
        Whole(i64::MIN)
    }

    fn from_count(n: usize) -> Self {
        Whole(n as i64)
    }

    fn plus(self, rhs: Self) -> Self {
        Whole(self.0 + rhs.0)
    }

    fn minus(self, rhs: Self) -> Self {
        Whole(self.0 - rhs.0)
    }

    fn times(self, rhs: Self) -> Self {
        Whole(self.0 * rhs.0)
    }

    fn over(self, rhs: Self) -> Self {
        Whole(self.0 / rhs.0)
    }
}

/// Fractions with exact arithmetic; `None` stands for "not a number".
#[derive(Clone, Copy, Debug, PartialEq)]
struct Exact(Option<num::rational::Ratio<i64>>);

fn exact(numer: i64, denom: i64) -> Exact {
    Exact(Some(num::rational::Ratio::new(numer, denom)))
}

impl Scalar for Exact {
    fn zero() -> Self {
        exact(0, 1)
    }

    fn one() -> Self {
        exact(1, 1)
    }

    fn nan() -> Self {
        Exact(None)
    }

    fn from_count(n: usize) -> Self {
        exact(n as i64, 1)
    }

    fn plus(self, rhs: Self) -> Self {
        match (self.0, rhs.0) {
            (Some(a), Some(b)) => Exact(Some(a + b)),
            _ => Exact(None),
        }
    }

    fn minus(self, rhs: Self) -> Self {
        match (self.0, rhs.0) {
            (Some(a), Some(b)) => Exact(Some(a - b)),
            _ => Exact(None),
        }
    }

    fn times(self, rhs: Self) -> Self {
        match (self.0, rhs.0) {
            (Some(a), Some(b)) => Exact(Some(a * b)),
            _ => Exact(None),
        }
    }

    fn over(self, rhs: Self) -> Self {
        match (self.0, rhs.0) {
            (Some(a), Some(b)) if b != num::rational::Ratio::from_integer(0) => Exact(Some(a / b)),
            _ => Exact(None),
        }
    }
}

fn mean_of(samples: &[f64]) -> f64 {
    let mut total = 0.0;
    for s in samples {
        total = total + s;
    }
    total / samples.len() as f64
}

#[test]
fn moving_average_test() {
    let mut a: MovingAverage<Real<f64>> = MovingAverage::new(3);

    assert!(a.time_constant() == 3);
    assert!(a.count() == 0);
    assert!(a.value().0.is_nan());

    a.add(Real(2f64));
    a.add(Real(3f64));

    assert!(a.count() == 2);
    assert!((a.value().0 - 5.0 / 2.0).abs() <= 1e-10);

    a.clear();

    assert!(a.count() == 0);
    assert!(a.value().0.is_nan());

    a.add(Real(1f64));
    a.add(Real(2f64));
    a.add(Real(3f64));
    a.add(Real(4f64));

    assert!(a.count() == 3);
    assert!((a.value().0 - 9.0 / 3.0).abs() <= 1e-10);
}

#[test]
fn moving_average_new_is_empty() {
    let a: MovingAverage<Real<f64>> = MovingAverage::new(4);
    assert_eq!(a.time_constant(), 4);
    assert_eq!(a.count(), 0);
    assert!(a.value().0.is_nan());
}

#[test]
fn moving_average_scenario_values() {
    let mut a: MovingAverage<Real<f64>> = MovingAverage::new(3);
    a.add(Real(2.0));
    a.add(Real(3.0));
    assert_eq!(a.count(), 2);
    assert_eq!(a.value().0, 2.5);
    a.clear();
    a.add(Real(1.0));
    a.add(Real(2.0));
    a.add(Real(3.0));
    a.add(Real(4.0));
    assert_eq!(a.count(), 3);
    assert_eq!(a.value().0, 3.0);
}

#[test]
fn moving_average_first_sample_evicts_nothing() {
    let mut a: MovingAverage<Real<f64>> = MovingAverage::new(3);
    a.add(Real(6.0));
    assert_eq!(a.count(), 1);
    assert_eq!(a.value().0, 6.0);
    a.clear();
    a.add(Real(8.0));
    assert_eq!(a.count(), 1);
    assert_eq!(a.value().0, 8.0);
}

#[test]
fn moving_average_unused_slots_are_never_read() {
    let mut a: MovingAverage<Real<f64>> = MovingAverage::new(5);
    a.add(Real(1.0));
    a.add(Real(2.0));
    assert_eq!(a.count(), 2);
    assert_eq!(a.value().0, 1.5);
    a.add(Real(3.0));
    a.add(Real(4.0));
    a.add(Real(5.0));
    assert_eq!(a.value().0, 3.0);
    a.add(Real(6.0));
    assert_eq!(a.count(), 5);
    assert_eq!(a.value().0, 4.0);
}

#[test]
fn moving_average_filling_window_is_the_plain_mean() {
    let samples = [2.5, -1.0, 4.0, 0.125, 10.0, 3.0, -7.75, 6.5];
    let mut a: MovingAverage<Real<f64>> = MovingAverage::new(samples.len());
    for (i, s) in samples.iter().enumerate() {
        a.add(Real(*s));
        assert_eq!(a.count(), i + 1);
        assert!((a.value().0 - mean_of(&samples[..i + 1])).abs() <= 1e-10);
    }
}

#[test]
fn moving_average_full_window_is_the_mean_of_the_last() {
    let samples = [2.5, -1.0, 4.0, 0.125, 10.0, 3.0, -7.75, 6.5, 1.0, 2.0, 9.5, -3.25, 0.5];
    let k = 4;
    let mut a: MovingAverage<Real<f64>> = MovingAverage::new(k);
    for (i, s) in samples.iter().enumerate() {
        a.add(Real(*s));
        let n = i + 1;
        if n <= k {
            assert_eq!(a.count(), n);
            assert!((a.value().0 - mean_of(&samples[..n])).abs() <= 1e-10);
        } else {
            assert_eq!(a.count(), k);
            assert!((a.value().0 - mean_of(&samples[n - k..n])).abs() <= 1e-10);
        }
    }
}

#[test]
fn moving_average_sum_is_kept_by_steps() {
    let mut a: MovingAverage<Real<f64>> = MovingAverage::new(2);
    a.add(Real(0.1));
    a.add(Real(0.2));
    a.add(Real(0.3));
    assert_eq!(a.value().0, ((((0.0 + 0.1) + 0.2) - 0.1) + 0.3) / 2.0);
}

#[test]
fn moving_average_exact_arithmetic_gives_the_exact_window() {
    let k = 7;
    let mut a: MovingAverage<Whole> = MovingAverage::new(k);
    assert_eq!(a.value(), Whole(i64::MIN));
    let mut samples: Vec<i64> = Vec::new();
    for i in 0..1000i64 {
        let s = (i * i * 31 + i * 7) % 1009 - 500;
        samples.push(s);
        a.add(Whole(s));
        let n = samples.len();
        let held = if n < k { n } else { k };
        let mut total = 0;
        for j in n - held..n {
            total += samples[j];
        }
        assert_eq!(a.count(), held);
        assert_eq!(a.value(), Whole(total / held as i64));
    }
}

#[test]
fn moving_average_window_of_one() {
    let mut a: MovingAverage<Real<f64>> = MovingAverage::new(1);
    assert_eq!(a.time_constant(), 1);
    a.add(Real(4.0));
    assert_eq!(a.count(), 1);
    assert_eq!(a.value().0, 4.0);
    a.add(Real(-2.0));
    assert_eq!(a.count(), 1);
    assert_eq!(a.value().0, -2.0);
    a.add(Real(9.0));
    assert_eq!(a.value().0, 9.0);
}

#[test]
fn moving_average_single_precision() {
    let mut a: MovingAverage<Real<f32>> = MovingAverage::new(2);
    assert!(a.value().0.is_nan());
    a.add(Real(1.0f32));
    a.add(Real(2.0f32));
    a.add(Real(4.0f32));
    assert_eq!(a.count(), 2);
    assert_eq!(a.value().0, 3.0f32);
}

#[test]
fn moving_average_nan_sample_stays_in_the_sum() {
    let mut a: MovingAverage<Real<f64>> = MovingAverage::new(2);
    a.add(Real(1.0));
    a.add(Real(f64::NAN));
    assert_eq!(a.count(), 2);
    assert!(a.value().0.is_nan());
    a.add(Real(2.0));
    a.add(Real(3.0));
    assert_eq!(a.count(), 2);
    assert!(a.value().0.is_nan());
    a.clear();
    a.add(Real(2.0));
    a.add(Real(3.0));
    assert_eq!(a.value().0, 2.5);
}

#[test]
fn moving_average_refill_after_clear_overwrites_stale_slots() {
    let mut a: MovingAverage<Real<f64>> = MovingAverage::new(3);
    a.add(Real(10.0));
    a.add(Real(20.0));
    a.add(Real(30.0));
    a.add(Real(40.0));
    a.add(Real(50.0));
    a.clear();
    assert_eq!(a.time_constant(), 3);
    a.add(Real(1.0));
    a.add(Real(2.0));
    assert_eq!(a.count(), 2);
    assert_eq!(a.value().0, 1.5);
    a.add(Real(3.0));
    a.add(Real(4.0));
    a.add(Real(5.0));
    assert_eq!(a.count(), 3);
    assert_eq!(a.value().0, 4.0);
}

#[test]
fn moving_average_clear_twice_is_clear_once() {
    let mut a: MovingAverage<Real<f64>> = MovingAverage::new(2);
    a.add(Real(3.0));
    a.add(Real(5.0));
    a.add(Real(7.0));
    a.clear();
    assert_eq!(a.count(), 0);
    assert!(a.value().0.is_nan());
    assert_eq!(a.time_constant(), 2);
    a.clear();
    assert_eq!(a.count(), 0);
    assert!(a.value().0.is_nan());
    assert_eq!(a.time_constant(), 2);
    a.add(Real(4.0));
    assert_eq!(a.value().0, 4.0);
}

#[test]
fn moving_average_clear_of_new_changes_nothing() {
    let mut a: MovingAverage<Real<f64>> = MovingAverage::new(2);
    a.clear();
    assert_eq!(a.count(), 0);
    assert!(a.value().0.is_nan());
    assert_eq!(a.time_constant(), 2);
    a.add(Real(2.0));
    a.add(Real(3.0));
    a.add(Real(4.0));
    assert_eq!(a.count(), 2);
    assert_eq!(a.value().0, 3.5);
}

#[test]
fn moving_average_rounding_stays_in_the_sum() {
    let mut a: MovingAverage<Real<f64>> = MovingAverage::new(2);
    a.add(Real(1e16));
    a.add(Real(1.0));
    assert_eq!(a.value().0, 1e16 / 2.0);
    a.add(Real(1.0));
    assert_eq!(a.count(), 2);
    assert_eq!(a.value().0, 0.5);

    let mut b: MovingAverage<Real<f64>> = MovingAverage::new(2);
    b.add(Real(0.1));
    b.add(Real(0.2));
    b.add(Real(0.7));
    assert_eq!(b.value().0, 0.45);
    assert!((b.value().0 - (0.2 + 0.7) / 2.0).abs() <= 1e-10);
}

#[test]
fn moving_average_exact_fractions_give_the_exact_window() {
    let samples = [(1, 3), (2, 7), (-5, 2), (9, 1), (4, 11), (0, 1), (13, 6), (7, 5), (-1, 9)];
    let k = 3;
    let mut a: MovingAverage<Exact> = MovingAverage::new(k);
    assert_eq!(a.value(), Exact(None));
    for n in 1..samples.len() + 1 {
        a.add(exact(samples[n - 1].0, samples[n - 1].1));
        let held = if n < k { n } else { k };
        let mut total = Exact::zero();
        for j in n - held..n {
            total = total.plus(exact(samples[j].0, samples[j].1));
        }
        assert_eq!(a.count(), held);
        assert_eq!(a.value(), total.over(exact(held as i64, 1)));
    }
    assert_eq!(a.value(), exact(311, 270));
}
