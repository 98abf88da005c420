//! A verified monocular visual-odometry front end.
//!
//! Given two camera frames the library detects corner features, builds
//! rotation-invariant binary descriptors for them, matches features between
//! the frames, and prepares the data for a robust estimate of the relative
//! camera motion.  All image and geometry arithmetic is carried out over
//! exact integers (fixed-point where fractions are needed), so every stage
//! carries a precise functional contract.

pub mod common;
pub mod decompose;
pub mod descriptor;
pub mod detect;
pub mod essential;
pub mod math;
pub mod matching;
pub mod preprocess;
pub mod rand;
pub mod slam;
