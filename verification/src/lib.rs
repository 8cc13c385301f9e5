//! Antiderivative antialiasing for memoryless nonlinear functions, in decimal fixed point.
//!
//! A waveshaper such as a hard clipper folds high harmonics back into the audible band. The
//! processors of this crate suppress that by working on the antiderivatives of the shaping
//! function, as in Bilbao, Esqueda, Parker and Välimäki, "Antiderivative Antialiasing for
//! Memoryless Nonlinearities", IEEE Signal Processing Letters 24(7), 2017.
pub mod accuracy;
pub mod fixed;
pub mod hard_clip;
pub mod nonlinear;
pub mod processor;
pub mod reals;

pub use fixed::{Ad1, Ad2, Output, Point, Sample};
pub use hard_clip::HardClip;
pub use nonlinear::NonlinearFunction;
pub use processor::{Adaa1, Adaa2};
