//! Running averages over a stream of samples: a cumulative average, an
//! exponential moving average and a moving average over a fixed window.
//!
//! The accumulators are generic over the sample type. They never look inside a
//! sample; all arithmetic goes through the [`Scalar`] operations of that type,
//! and every contract says which of those operations produced a result.
pub mod average;
pub mod average_trait;
pub mod exponential_moving_average;
pub mod moving_average;
pub mod scalar;
pub mod window;

pub use average::Average;
pub use average_trait::AverageTrait;
pub use exponential_moving_average::ExponentialMovingAverage;
pub use moving_average::MovingAverage;
pub use scalar::Scalar;
