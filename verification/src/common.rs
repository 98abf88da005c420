//! Shared data types of the pipeline: images, keypoints, descriptors and the
//! error kinds that the stages report.

use vstd::prelude::*;

verus! {

/// The failure kinds that the pipeline stages can report.
#[derive(Clone, Copy, Debug, PartialEq, Eq, Structural)]
pub enum PipelineError {
    /// A pixel buffer whose length does not fit the stated width, height and
    /// channel count, or an image too small for the detector's margin.
    DimensionError,
    /// Two descriptor sets handed to the matcher differ in byte length.
    DescriptorLengthMismatch,
    /// Fewer than the eight correspondences that essential-matrix
    /// estimation needs.
    InsufficientCorrespondences,
    /// Pose decomposition could not single out a proper rotation.
    AmbiguousGeometry,
}

/// The dominant local gradient direction at a keypoint, kept as the pair of
/// intensity-weighted moment sums.  The pair `(mx, my)` points along the
/// gradient; descriptor sampling offsets are rotated by the angle this vector
/// makes with the x-axis.  `(0, 0)` stands for "no dominant direction" and
/// rotates nothing.
#[derive(Clone, Copy, Debug, PartialEq, Eq, Structural)]
pub struct Orientation {
    pub mx: i32,
    pub my: i32,
}

/// A detected corner feature: integer pixel coordinates plus the dominant
/// gradient direction around it.
#[derive(Clone, Copy, Debug, PartialEq, Eq, Structural)]
pub struct KeyPoint {
    pub x: usize,
    pub y: usize,
    pub orientation: Orientation,
}

/// A binary feature descriptor: one bit per sampling-pattern pair, packed
/// least-significant-bit first into bytes.  Equality is bitwise.
#[derive(Clone, Debug, Eq)]
pub struct Descriptor(pub Vec<u8>);

impl PartialEq for Descriptor {
    fn eq(&self, other: &Descriptor) -> (r: bool) {
        let r = self.0 == other.0;
        proof {
            if r {
                assert(self.0@ =~= other.0@);
            }
        }
        r
    }
}

impl vstd::std_specs::cmp::PartialEqSpecImpl for Descriptor {
    open spec fn obeys_eq_spec() -> bool {
        true
    }

    open spec fn eq_spec(&self, other: &Descriptor) -> bool {
        self.0@ == other.0@
    }
}

/// Fixed-point scale of geometry values: the integer that stands for 1.0.
pub const FP_ONE: i64 = 1_048_576;

/// A 3-by-3 matrix of fixed-point entries scaled by `FP_ONE`, row-major.
/// Essential matrices, singular-vector factors and rotation candidates are
/// carried in this form.
#[derive(Clone, Copy, Debug)]
pub struct Mat3 {
    pub e: [i64; 9],
}

/// An owned pixel buffer with its dimensions.  The input frames are
/// interleaved four-channel (RGBA); the preprocessed buffers the pipeline
/// derives from them are single-channel.
#[derive(Clone, Debug)]
pub struct Image {
    pub width: usize,
    pub height: usize,
    pub data: Vec<u8>,
}

impl Image {
    /// The buffer holds exactly `width * height * channels` samples.
    pub open spec fn valid(&self, channels: nat) -> bool {
        self.data@.len() == self.width * self.height * channels
    }
}

} // verus!
