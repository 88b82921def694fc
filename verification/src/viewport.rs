use vstd::prelude::*;
use crate::grid::{fits, fits_exec};

verus! {

/// The greatest bit pattern of a positive double-precision number: that of
/// positive infinity.
pub const GREATEST_POSITIVE_BITS: u64 = 0x7FF0_0000_0000_0000;

/// A double-precision number, carried by its bit pattern. Sessions store and hand
/// on such numbers and compute nothing with them.
#[derive(Clone, Copy, Debug, PartialEq, Eq, Structural)]
pub struct Scalar {
    pub bits: u64,
}

impl Scalar {
    /// Whether the number is greater than zero: its sign bit is clear, it is not
    /// zero, and its pattern stands for a number.
    pub open spec fn positive(self) -> bool {
        0 < self.bits <= GREATEST_POSITIVE_BITS
    }

    /// Tells whether the number is greater than zero.
    pub fn is_positive(&self) -> (out: bool)
        ensures
            out == self.positive(),
    {
        0 < self.bits && self.bits <= GREATEST_POSITIVE_BITS
    }
}

/// The region of the complex plane that a session samples, and how finely.
#[derive(Clone, Copy, Debug, PartialEq, Eq, Structural)]
pub struct Viewport {
    /// The number of pixel rows.
    pub rows: u32,
    /// The number of pixel columns.
    pub cols: u32,
    /// The real part of the point at the centre.
    pub mid_pt_re: Scalar,
    /// The imaginary part of the point at the centre.
    pub mid_pt_im: Scalar,
    /// The distance between two neighbouring pixels.
    pub pt_div: Scalar,
    /// The iteration cap.
    pub max_its: u32,
}

impl Viewport {
    /// Whether a grid can be generated for the viewport: it has rows and columns, a
    /// positive distance between pixels and an iteration cap of at least one, and
    /// its grid fits.
    pub open spec fn valid(self) -> bool {
        &&& self.rows > 0
        &&& self.cols > 0
        &&& self.pt_div.positive()
        &&& self.max_its >= 1
        &&& fits(self.rows, self.cols)
    }

    /// Tells whether a grid can be generated for the viewport.
    pub fn is_valid(&self) -> (out: bool)
        ensures
            out == self.valid(),
    {
        self.rows > 0 && self.cols > 0 && self.pt_div.is_positive() && self.max_its >= 1
            && fits_exec(self.rows, self.cols)
    }
}

/// What a caller asks of a generation; a parameter that is left out takes the
/// value that the settings give it.
#[derive(Clone, Copy, Debug, PartialEq, Eq, Structural)]
pub struct FractalParams {
    pub rows: Option<u32>,
    pub cols: Option<u32>,
    pub mid_pt_re: Option<Scalar>,
    pub mid_pt_im: Option<Scalar>,
    pub pt_div: Option<Scalar>,
    pub max_its: Option<u32>,
}

} // verus!
