use vstd::prelude::*;
use crate::viewport::{FractalParams, Scalar, Viewport};

verus! {

/// The configuration that a session is made with.
#[derive(Clone, Debug)]
pub struct Settings {
    pub program_name: String,
    pub program_ver: String,
    pub program_devs: Vec<String>,
    pub program_web: String,
    /// The directory that images are written to.
    pub fractal_folder: String,
    /// The file name that the names of images are derived from.
    pub fractal_filename: String,
    /// The directory that palette definitions are read from.
    pub palette_folder: String,
    /// The file name of the palette definition that a session starts with.
    pub def_palette: String,
    pub init_rows: u32,
    pub init_cols: u32,
    pub init_mid_pt_re: Scalar,
    pub init_mid_pt_im: Scalar,
    pub init_pt_div: Scalar,
    pub init_max_its: u32,
}

impl Settings {
    /// The viewport that the settings give to a session that is asked for nothing
    /// else.
    pub open spec fn initial_viewport(&self) -> Viewport {
        Viewport {
            rows: self.init_rows,
            cols: self.init_cols,
            mid_pt_re: self.init_mid_pt_re,
            mid_pt_im: self.init_mid_pt_im,
            pt_div: self.init_pt_div,
            max_its: self.init_max_its,
        }
    }

    /// The viewport that `params` asks for: each parameter as it is given, and as the
    /// settings give it where it is left out.
    pub open spec fn viewport_for(&self, params: FractalParams) -> Viewport {
        Viewport {
            rows: params.rows.unwrap_or(self.init_rows),
            cols: params.cols.unwrap_or(self.init_cols),
            mid_pt_re: params.mid_pt_re.unwrap_or(self.init_mid_pt_re),
            mid_pt_im: params.mid_pt_im.unwrap_or(self.init_mid_pt_im),
            pt_div: params.pt_div.unwrap_or(self.init_pt_div),
            max_its: params.max_its.unwrap_or(self.init_max_its),
        }
    }

    /// Returns the viewport that `params` asks for: each parameter as it is given,
    /// and as the settings give it where it is left out.
    pub fn resolve(&self, params: &FractalParams) -> (out: Viewport)
        ensures
            out == self.viewport_for(*params),
    {
        Viewport {
            rows: match params.rows {
                Some(rows) => rows,
                None => self.init_rows,
            },
            cols: match params.cols {
                Some(cols) => cols,
                None => self.init_cols,
            },
            mid_pt_re: match params.mid_pt_re {
                Some(re) => re,
                None => self.init_mid_pt_re,
            },
            mid_pt_im: match params.mid_pt_im {
                Some(im) => im,
                None => self.init_mid_pt_im,
            },
            pt_div: match params.pt_div {
                Some(pt_div) => pt_div,
                None => self.init_pt_div,
            },
            max_its: match params.max_its {
                Some(max_its) => max_its,
                None => self.init_max_its,
            },
        }
    }
}

} // verus!
