use vstd::prelude::*;
use vstd::string::*;

verus! {

/// The failures that the library reports to its callers.
#[derive(Clone, Copy, Debug, PartialEq, Eq, Structural)]
pub enum FractalError {
    /// No grid has been generated yet, or a generation did not yield a usable grid.
    NotGenerated,
    /// A palette definition holds a position that is out of range or out of order.
    PaletteFormat,
}

impl FractalError {
    /// The text shown to a user for this failure.
    pub open spec fn text(self) -> Seq<char> {
        match self {
            FractalError::NotGenerated => "Failed to generate fractal image."@,
            FractalError::PaletteFormat => "Malformed colour palette definition."@,
        }
    }

    /// Returns the text shown to a user for this failure.
    pub fn message(&self) -> (out: String)
        ensures
            out@ == self.text(),
    {
        match self {
            FractalError::NotGenerated => String::from_str("Failed to generate fractal image."),
            FractalError::PaletteFormat => String::from_str("Malformed colour palette definition."),
        }
    }
}

} // verus!
