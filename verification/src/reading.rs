//! One decoded scan.

use vstd::prelude::*;

verus! {

/// Number of measurements in one scan: one per degree.
pub const DEGREES: usize = 360;

/// One full turn of the sensor.
///
/// `ranges[d]` is the distance in millimetres measured at degree `d`,
/// `intensities[d]` the strength of that echo in the device's own units, and
/// `rpms` the rotation speed that the sensor last reported.
#[derive(Debug)]
pub struct LaserReading {
    pub ranges: [u16; DEGREES],
    pub intensities: [u16; DEGREES],
    pub rpms: u16,
}

/// What a `LaserReading` holds, as plain sequences.
#[verifier::ext_equal]
pub struct ReadingView {
    pub ranges: Seq<u16>,
    pub intensities: Seq<u16>,
    pub rpms: u16,
}

impl ReadingView {
    /// The reading of 360 degrees whose every field is zero.
    pub open spec fn zero() -> ReadingView {
        ReadingView {
            ranges: Seq::new(360, |d: int| 0u16),
            intensities: Seq::new(360, |d: int| 0u16),
            rpms: 0,
        }
    }
}

impl View for LaserReading {
    type V = ReadingView;

    open spec fn view(&self) -> ReadingView {
        ReadingView { ranges: self.ranges@, intensities: self.intensities@, rpms: self.rpms }
    }
}

impl LaserReading {
    /// A reading with every range, every intensity and the speed at zero.
    pub fn new() -> (reading: Self)
        ensures
            reading@ == ReadingView::zero(),
    {
        Self { ranges: [0u16; DEGREES], intensities: [0u16; DEGREES], rpms: 0 }
    }
}

impl Clone for LaserReading {
    fn clone(&self) -> (copy: Self)
        ensures
            copy@ == self@,
    {
        Self { ranges: self.ranges, intensities: self.intensities, rpms: self.rpms }
    }
}

impl Default for LaserReading {
    fn default() -> (reading: Self)
        ensures
            reading@ == ReadingView::zero(),
    {
        Self::new()
    }
}

} // verus!
