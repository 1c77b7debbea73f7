//! Civil-calendar time: conversions between Unix epoch time and
//! proleptic Gregorian calendar fields, formatting, differences and a
//! stopwatch.

pub mod calendar;
pub mod clock;
pub mod elapsed;
pub mod nano_time;
pub mod text;

pub use elapsed::Elapsed;
pub use nano_time::NanoTime;
