use vstd::prelude::*;
use vstd::string::*;
use crate::error::FractalError;
use crate::filename::{first_free_filename, free_name, names_of};
use crate::grid::{
    each_row_once,
    finished_of,
    fits,
    lemma_merge_ignores_order,
    merge_rows,
    merged,
    shaped,
    EscapeGrid,
};
use crate::histogram::{histogram, is_histogram_of, Histogram};
use crate::palette::{acceptable, position_bits, reads, same_stops, Palette, PaletteStop};
use crate::raster::{paint, pictures};
use crate::settings::Settings;
use crate::viewport::{FractalParams, Scalar, Viewport};

verus! {

/// Whether the rows handed in make up a grid for `viewport`: each of its rows was
/// handed in exactly once and has its columns, and no value exceeds its iteration
/// cap.
pub open spec fn usable(finished: Seq<(u32, Seq<u32>)>, viewport: Viewport) -> bool {
    &&& each_row_once(finished, viewport.rows)
    &&& shaped(merged(finished, viewport.rows), viewport.rows, viewport.cols, viewport.max_its)
}

/// Whether an uploaded palette definition is taken: it has a file name and content.
pub open spec fn upload_acceptable(raw_bytes: Seq<u8>, suggested_filename: Seq<char>) -> bool {
    raw_bytes.len() > 0 && suggested_filename.len() > 0
}

/// Tells whether an uploaded palette definition is taken: one without a file name
/// or without content is refused.
pub fn accepts_upload(raw_bytes: &Vec<u8>, suggested_filename: &str) -> (out: bool)
    ensures
        out == upload_acceptable(raw_bytes@, suggested_filename@),
{
    raw_bytes.len() > 0 && suggested_filename.unicode_len() > 0
}

/// A picture that waits to be written: the name to write it under, which no
/// existing file has, and its bytes, the pixels row by row from the top with three
/// bytes to the pixel.
#[derive(Debug)]
pub struct Picture {
    pub filename: String,
    pub bytes: Vec<u8>,
}

/// Where a session stands between its generations.
#[derive(Clone, Copy, Debug, PartialEq, Eq, Structural)]
pub enum SessionState {
    /// No grid has been generated yet.
    Uninitialized,
    /// The grid was generated for the viewport as it is now.
    Ready,
    /// The viewport has changed since the grid was generated.
    Stale,
}

/// The operations of a session whose duration is recorded.
#[derive(Clone, Copy, Debug, PartialEq, Eq, Structural)]
pub enum Transition {
    Generate,
    Recentre,
    Render,
    Histogram,
}

/// How long the last operation of each kind took, in milliseconds.
#[derive(Clone, Copy, Debug, PartialEq, Eq, Structural)]
pub struct Timings {
    pub generate: u64,
    pub recentre: u64,
    pub rendering: u64,
    pub histogram: u64,
}

impl Timings {
    /// The timings with the duration of one kind of operation replaced.
    pub open spec fn with(self, transition: Transition, millis: u64) -> Timings {
        match transition {
            Transition::Generate => Timings { generate: millis, ..self },
            Transition::Recentre => Timings { recentre: millis, ..self },
            Transition::Render => Timings { rendering: millis, ..self },
            Transition::Histogram => Timings { histogram: millis, ..self },
        }
    }
}

/// A session of exploring a fractal: the viewport, the palette, the grid and the
/// image of the last generation, and how long its operations took.
pub struct Fractal {
    settings: Settings,
    timings: Timings,
    viewport: Viewport,
    escape_its: Option<EscapeGrid>,
    computed_for: Viewport,
    col_palette: Palette,
    active_palette_file: String,
    image_filename: String,
}

impl Fractal {
    #[verifier::type_invariant]
    spec fn inv(&self) -> bool {
        self.well_formed()
    }

    /// The configuration that the session was made with.
    pub closed spec fn spec_settings(&self) -> Settings {
        self.settings
    }

    /// The viewport as it is now.
    pub closed spec fn spec_viewport(&self) -> Viewport {
        self.viewport
    }

    /// The grid of the last generation, if there was one.
    pub closed spec fn spec_escape_its(&self) -> Option<EscapeGrid> {
        self.escape_its
    }

    /// The viewport that the grid of the last generation was generated for.
    pub closed spec fn spec_computed_for(&self) -> Viewport {
        self.computed_for
    }

    /// The active palette.
    pub closed spec fn spec_col_palette(&self) -> Palette {
        self.col_palette
    }

    /// The file name of the definition of the active palette.
    pub closed spec fn spec_active_palette_file(&self) -> Seq<char> {
        self.active_palette_file@
    }

    /// The file name of the last image that was written, without its directory.
    pub closed spec fn spec_image_filename(&self) -> Seq<char> {
        self.image_filename@
    }

    /// How long the last operation of each kind took.
    pub closed spec fn spec_timings(&self) -> Timings {
        self.timings
    }

    /// What holds of every session: its palette is well formed, and its grid, if it
    /// has one, is well formed and has the rows, the columns and the iteration cap
    /// of the viewport that it was generated for.
    pub open spec fn well_formed(&self) -> bool {
        &&& self.spec_col_palette().well_formed()
        &&& self.spec_escape_its() matches Some(grid) ==> {
            &&& grid.well_formed()
            &&& grid.spec_rows() == self.spec_computed_for().rows
            &&& grid.spec_cols() == self.spec_computed_for().cols
            &&& grid.spec_max_iterations() == self.spec_computed_for().max_its
        }
    }

    /// Where the session stands.
    pub open spec fn spec_state(&self) -> SessionState {
        if self.spec_escape_its().is_none() {
            SessionState::Uninitialized
        } else if self.spec_computed_for() == self.spec_viewport() {
            SessionState::Ready
        } else {
            SessionState::Stale
        }
    }

    /// Whether `self` has the settings, the viewport, the active palette file and
    /// the timings of `before`.
    pub open spec fn keeps_parameters(&self, before: &Fractal) -> bool {
        &&& self.spec_settings() == before.spec_settings()
        &&& self.spec_viewport() == before.spec_viewport()
        &&& self.spec_active_palette_file() == before.spec_active_palette_file()
        &&& self.spec_timings() == before.spec_timings()
    }

    /// Whether `self` has the grid of `before`, generated for the same viewport.
    pub open spec fn keeps_grid(&self, before: &Fractal) -> bool {
        &&& self.spec_escape_its() == before.spec_escape_its()
        &&& self.spec_computed_for() == before.spec_computed_for()
    }

    /// Makes a session with the given configuration. It has no grid, no image and
    /// an empty palette, and its viewport is empty until it is initialised.
    pub fn init(settings: Settings) -> (out: Fractal)
        ensures
            out.spec_settings() == settings,
            out.spec_viewport() == (Viewport {
                rows: 0,
                cols: 0,
                mid_pt_re: Scalar { bits: 0 },
                mid_pt_im: Scalar { bits: 0 },
                pt_div: Scalar { bits: 0 },
                max_its: 0,
            }),
            out.state() == SessionState::Uninitialized,
            out.spec_col_palette()@.len() == 0,
            out.spec_col_palette().spec_max_iterations() == 0,
            out.spec_active_palette_file().len() == 0,
            out.spec_image_filename().len() == 0,
            out.spec_timings() == (Timings { generate: 0, recentre: 0, rendering: 0, histogram: 0 }),
            out.well_formed(),
    {
        let empty = Viewport {
            rows: 0,
            cols: 0,
            mid_pt_re: Scalar { bits: 0 },
            mid_pt_im: Scalar { bits: 0 },
            pt_div: Scalar { bits: 0 },
            max_its: 0,
        };
        Fractal {
            settings,
            timings: Timings { generate: 0, recentre: 0, rendering: 0, histogram: 0 },
            viewport: empty,
            escape_its: None,
            computed_for: empty,
            col_palette: Palette::new(),
            active_palette_file: String::new(),
            image_filename: String::new(),
        }
    }

    /// Sets the viewport to what the settings give.
    pub fn init_fractal_image(&mut self)
        ensures
            final(self).spec_viewport() == old(self).spec_settings().initial_viewport(),
            final(self).spec_settings() == old(self).spec_settings(),
            final(self).spec_timings() == old(self).spec_timings(),
            final(self).spec_active_palette_file() == old(self).spec_active_palette_file(),
            final(self).spec_image_filename() == old(self).spec_image_filename(),
            final(self).spec_col_palette() == old(self).spec_col_palette(),
            final(self).keeps_grid(old(self)),
            final(self).well_formed(),
    {
        proof {
            use_type_invariant(&*self);
        }
        self.viewport = Viewport {
            rows: self.settings.init_rows,
            cols: self.settings.init_cols,
            mid_pt_re: self.settings.init_mid_pt_re,
            mid_pt_im: self.settings.init_mid_pt_im,
            pt_div: self.settings.init_pt_div,
            max_its: self.settings.init_max_its,
        };
    }

    /// Sets the viewport to what `params` asks for: each parameter as it is given,
    /// and as the settings give it where it is left out.
    pub fn apply_params(&mut self, params: &FractalParams)
        ensures
            final(self).spec_viewport() == old(self).spec_settings().viewport_for(*params),
            final(self).spec_settings() == old(self).spec_settings(),
            final(self).spec_timings() == old(self).spec_timings(),
            final(self).spec_active_palette_file() == old(self).spec_active_palette_file(),
            final(self).spec_image_filename() == old(self).spec_image_filename(),
            final(self).spec_col_palette() == old(self).spec_col_palette(),
            final(self).keeps_grid(old(self)),
            final(self).well_formed(),
    {
        proof {
            use_type_invariant(&*self);
        }
        self.viewport = self.settings.resolve(params);
    }

    /// Replaces the active palette by the one that `definition` defines, scaled to
    /// the iteration cap of the viewport. A definition in which a stop is placed
    /// outside the range from zero to one, or before the stop that precedes it, is
    /// refused, and the session stays as it was.
    pub fn init_col_pallete(&mut self, definition: &Vec<PaletteStop>) -> (out: Result<
        (),
        FractalError,
    >)
        ensures
            out.is_ok() <==> acceptable(definition@),
            out matches Err(e) ==> e == FractalError::PaletteFormat && *final(self) == *old(self),
            out.is_ok() ==> {
                &&& reads(final(self).spec_col_palette()@, definition@)
                &&& final(self).spec_col_palette().spec_max_iterations() == old(
                    self,
                ).spec_viewport().max_its
                &&& final(self).keeps_parameters(old(self))
                &&& final(self).keeps_grid(old(self))
                &&& final(self).spec_image_filename() == old(self).spec_image_filename()
            },
            final(self).well_formed(),
    {
        proof {
            use_type_invariant(&*self);
        }
        match Palette::load(definition) {
            Ok(palette) => {
                let ghost loaded = palette@;
                let palette = palette.rescaled(self.viewport.max_its);
                assert(reads(palette@, definition@)) by {
                    assert forall|i: int| 0 <= i < palette@.len() implies {
                        &&& (#[trigger] palette@[i]).relative_position.spec_bits()
                            == position_bits(definition@[i].rel_index)
                        &&& palette@[i].label@ == definition@[i].comment@
                        &&& palette@[i].color == definition@[i].color
                    } by {
                        assert(palette@[i].relative_position == loaded[i].relative_position);
                    }
                }
                self.col_palette = palette;
                Ok(())
            },
            Err(e) => Err(e),
        }
    }

    /// Takes in the rows of a generation for the viewport as it is now, each with
    /// its index and in the order in which they were finished, puts them together,
    /// draws them with the active palette, scaled to the viewport's iteration cap,
    /// and names the picture so that it replaces none of `existing`. The picture is
    /// handed out to be written; `record_image` makes it the image of the session
    /// once it has been.
    ///
    /// The rows are refused, and the session stays as it was, where one of the
    /// viewport's rows is missing or was handed in twice, where a row has not the
    /// columns of the viewport, or where a value exceeds its iteration cap.
    pub fn generate_fractal(&mut self, finished: Vec<(u32, Vec<u32>)>, existing: &Vec<String>) -> (out:
        Result<Picture, FractalError>)
        requires
            old(self).spec_viewport().valid(),
        ensures
            out.is_ok() <==> usable(finished_of(finished), old(self).spec_viewport()),
            out matches Err(e) ==> e == FractalError::NotGenerated && *final(self) == *old(self),
            out matches Ok(picture) ==> final(self).shows(
                old(self),
                old(self).spec_viewport(),
                merged(finished_of(finished), old(self).spec_viewport().rows),
                existing@,
                picture,
            ),
            final(self).well_formed(),
    {
        let viewport = self.viewport;
        self.install(viewport, finished, existing)
    }

    /// Whether `self` is `before` after a generation for `viewport` that yielded
    /// `cells` and the picture `picture`, named beside `existing`. The name of the
    /// last image stays as it was: the picture has not been written yet.
    pub open spec fn shows(
        &self,
        before: &Fractal,
        viewport: Viewport,
        cells: Seq<Seq<u32>>,
        existing: Seq<String>,
        picture: Picture,
    ) -> bool {
        &&& self.spec_settings() == before.spec_settings()
        &&& self.spec_active_palette_file() == before.spec_active_palette_file()
        &&& self.spec_timings() == before.spec_timings()
        &&& self.spec_viewport() == viewport
        &&& self.state() == SessionState::Ready
        &&& self.spec_escape_its() matches Some(grid) && grid@ == cells
        &&& same_stops(self.spec_col_palette()@, before.spec_col_palette()@)
        &&& self.spec_col_palette().spec_max_iterations() == viewport.max_its
        &&& self.spec_image_filename() == before.spec_image_filename()
        &&& picture.filename@ == free_name(
            names_of(existing),
            before.spec_settings().fractal_filename@,
        )
        &&& pictures(
            picture.bytes@,
            cells,
            viewport.rows,
            viewport.cols,
            self.spec_col_palette()@,
        )
    }

    fn install(
        &mut self,
        viewport: Viewport,
        finished: Vec<(u32, Vec<u32>)>,
        existing: &Vec<String>,
    ) -> (out: Result<Picture, FractalError>)
        requires
            fits(viewport.rows, viewport.cols),
        ensures
            out.is_ok() <==> usable(finished_of(finished), viewport),
            out matches Err(e) ==> e == FractalError::NotGenerated && *final(self) == *old(self),
            out matches Ok(picture) ==> final(self).shows(
                old(self),
                viewport,
                merged(finished_of(finished), viewport.rows),
                existing@,
                picture,
            ),
            final(self).well_formed(),
    {
        proof {
            use_type_invariant(&*self);
        }
        let cells = match merge_rows(viewport.rows, finished) {
            Some(cells) => cells,
            None => {
                return Err(FractalError::NotGenerated);
            },
        };
        let grid = match EscapeGrid::from_rows(viewport.rows, viewport.cols, viewport.max_its, cells) {
            Some(grid) => grid,
            None => {
                return Err(FractalError::NotGenerated);
            },
        };
        self.col_palette = self.col_palette.rescaled(viewport.max_its);
        let bytes = paint(&grid, self.col_palette.entries());
        let filename = first_free_filename(self.settings.fractal_filename.as_str(), existing);
        self.escape_its = None;
        self.computed_for = viewport;
        self.viewport = viewport;
        self.escape_its = Some(grid);
        Ok(Picture { filename, bytes })
    }

    /// Moves the centre of the viewport to a new point and takes in the finished
    /// rows of a generation for the viewport so moved, as `generate_fractal` does.
    /// The row and the column of the new centre in the last image are taken as hints
    /// and decide nothing.
    ///
    /// A session without a grid refuses, as it does rows that do not fit the
    /// viewport, and stays as it was.
    pub fn recentre_fractal(
        &mut self,
        c_row: u32,
        c_col: u32,
        mid_pt_re: Scalar,
        mid_pt_im: Scalar,
        finished: Vec<(u32, Vec<u32>)>,
        existing: &Vec<String>,
    ) -> (out: Result<Picture, FractalError>)
        requires
            old(self).spec_escape_its().is_some() ==> old(self).spec_viewport().valid(),
        ensures
            out.is_ok() <==> old(self).spec_escape_its().is_some() && usable(
                finished_of(finished),
                old(self).spec_viewport(),
            ),
            out matches Err(e) ==> e == FractalError::NotGenerated && *final(self) == *old(self),
            out matches Ok(picture) ==> final(self).shows(
                old(self),
                (Viewport { mid_pt_re, mid_pt_im, ..old(self).spec_viewport() }),
                merged(finished_of(finished), old(self).spec_viewport().rows),
                existing@,
                picture,
            ),
            final(self).well_formed(),
    {
        if self.escape_its.is_none() {
            proof {
                use_type_invariant(&*self);
            }
            return Err(FractalError::NotGenerated);
        }
        let moved = Viewport {
            rows: self.viewport.rows,
            cols: self.viewport.cols,
            mid_pt_re,
            mid_pt_im,
            pt_div: self.viewport.pt_div,
            max_its: self.viewport.max_its,
        };
        self.install(moved, finished, existing)
    }

    /// Whether `picture` is the grid of the session drawn with the active palette as
    /// it is, and named beside `existing`.
    pub open spec fn renders(&self, existing: Seq<String>, picture: Picture) -> bool {
        &&& picture.filename@ == free_name(names_of(existing), self.spec_settings().fractal_filename@)
        &&& self.spec_escape_its() matches Some(grid) && pictures(
            picture.bytes@,
            grid@,
            grid.spec_rows(),
            grid.spec_cols(),
            self.spec_col_palette()@,
        )
    }

    /// Draws the grid of the last generation again, with the active palette as it
    /// is, and names the picture so that it replaces none of `existing`. The session
    /// stays as it is; `record_image` makes the picture its image once it has been
    /// written. A session without a grid refuses.
    pub fn render_image(&self, existing: &Vec<String>) -> (out: Result<Picture, FractalError>)
        ensures
            out.is_ok() <==> self.spec_escape_its().is_some(),
            out matches Err(e) ==> e == FractalError::NotGenerated,
            out matches Ok(picture) ==> self.renders(existing@, picture),
            self.well_formed(),
    {
        proof {
            use_type_invariant(self);
        }
        let bytes = match &self.escape_its {
            Some(grid) => paint(grid, self.col_palette.entries()),
            None => {
                return Err(FractalError::NotGenerated);
            },
        };
        let filename = first_free_filename(self.settings.fractal_filename.as_str(), existing);
        Ok(Picture { filename, bytes })
    }

    /// Makes the file `filename` the image of the session. It is called once a
    /// picture has been written under that name: where the writing fails, the
    /// session goes on naming the image that it named before.
    pub fn record_image(&mut self, filename: &str)
        ensures
            final(self).spec_image_filename() == filename@,
            final(self).keeps_parameters(old(self)),
            final(self).keeps_grid(old(self)),
            final(self).spec_col_palette() == old(self).spec_col_palette(),
            final(self).well_formed(),
    {
        proof {
            use_type_invariant(&*self);
        }
        self.image_filename = String::from_str(filename);
    }

    /// Summarises the grid of the last generation: for each value below the
    /// iteration cap of the viewport, in ascending order, how many cells hold it.
    /// A session without a grid refuses.
    pub fn divergence_histogram(&self) -> (out: Result<Histogram, FractalError>)
        ensures
            out.is_ok() <==> self.spec_escape_its().is_some(),
            out matches Err(e) ==> e == FractalError::NotGenerated,
            out matches Ok(h) ==> self.spec_escape_its() matches Some(grid) && is_histogram_of(
                h.bins@,
                h.counts@,
                grid@,
                self.spec_viewport().max_its,
            ),
            self.well_formed(),
    {
        proof {
            use_type_invariant(self);
        }
        match &self.escape_its {
            Some(grid) => Ok(histogram(grid, self.viewport.max_its)),
            None => Err(FractalError::NotGenerated),
        }
    }

    /// Makes the uploaded definition `raw_bytes`, stored under `suggested_filename`,
    /// the active palette file. An upload without a file name or without content is
    /// refused, as `accepts_upload` tells beforehand.
    pub fn load_palette(&mut self, raw_bytes: &Vec<u8>, suggested_filename: &str) -> (accepted:
        bool)
        ensures
            accepted <==> upload_acceptable(raw_bytes@, suggested_filename@),
            accepted ==> {
                &&& final(self).spec_active_palette_file() == suggested_filename@
                &&& final(self).spec_settings() == old(self).spec_settings()
                &&& final(self).spec_timings() == old(self).spec_timings()
                &&& final(self).spec_viewport() == old(self).spec_viewport()
                &&& final(self).spec_col_palette() == old(self).spec_col_palette()
                &&& final(self).spec_image_filename() == old(self).spec_image_filename()
                &&& final(self).keeps_grid(old(self))
            },
            !accepted ==> *final(self) == *old(self),
            final(self).well_formed(),
    {
        proof {
            use_type_invariant(&*self);
        }
        if !accepts_upload(raw_bytes, suggested_filename) {
            return false;
        }
        self.active_palette_file = String::from_str(suggested_filename);
        true
    }

    /// Records how long an operation took, in milliseconds.
    pub fn record_duration(&mut self, transition: Transition, millis: u64)
        ensures
            final(self).spec_timings() == old(self).spec_timings().with(transition, millis),
            final(self).spec_settings() == old(self).spec_settings(),
            final(self).spec_viewport() == old(self).spec_viewport(),
            final(self).spec_active_palette_file() == old(self).spec_active_palette_file(),
            final(self).spec_image_filename() == old(self).spec_image_filename(),
            final(self).spec_col_palette() == old(self).spec_col_palette(),
            final(self).keeps_grid(old(self)),
            final(self).well_formed(),
    {
        proof {
            use_type_invariant(&*self);
        }
        let now = self.timings;
        self.timings = match transition {
            Transition::Generate => Timings { generate: millis, ..now },
            Transition::Recentre => Timings { recentre: millis, ..now },
            Transition::Render => Timings { rendering: millis, ..now },
            Transition::Histogram => Timings { histogram: millis, ..now },
        };
    }

    /// Returns how long the last operation of each kind took, in milliseconds.
    #[verifier::when_used_as_spec(spec_timings)]
    pub fn timings(&self) -> (out: Timings)
        ensures
            out == self.spec_timings(),
    {
        self.timings
    }

    /// Returns where the session stands.
    #[verifier::when_used_as_spec(spec_state)]
    pub fn state(&self) -> (out: SessionState)
        ensures
            out == self.spec_state(),
    {
        if self.escape_its.is_none() {
            SessionState::Uninitialized
        } else if self.computed_for == self.viewport {
            SessionState::Ready
        } else {
            SessionState::Stale
        }
    }

    /// Returns the configuration that the session was made with.
    pub fn settings(&self) -> (out: &Settings)
        ensures
            *out == self.spec_settings(),
    {
        &self.settings
    }

    /// Returns the viewport as it is now.
    #[verifier::when_used_as_spec(spec_viewport)]
    pub fn viewport(&self) -> (out: Viewport)
        ensures
            out == self.spec_viewport(),
    {
        self.viewport
    }

    /// Returns the grid of the last generation, if there was one.
    pub fn escape_its(&self) -> (out: Option<&EscapeGrid>)
        ensures
            out.is_some() <==> self.spec_escape_its().is_some(),
            out matches Some(grid) ==> self.spec_escape_its() == Some(*grid),
            self.well_formed(),
    {
        proof {
            use_type_invariant(self);
        }
        self.escape_its.as_ref()
    }

    /// Returns the active palette.
    pub fn col_palette(&self) -> (out: &Palette)
        ensures
            *out == self.spec_col_palette(),
    {
        &self.col_palette
    }

    /// Returns the file name of the definition of the active palette.
    pub fn active_palette_file(&self) -> (out: &str)
        ensures
            out@ == self.spec_active_palette_file(),
    {
        self.active_palette_file.as_str()
    }

    /// Returns the file name of the last image that was written, without its
    /// directory.
    pub fn image_filename(&self) -> (out: &str)
        ensures
            out@ == self.spec_image_filename(),
    {
        self.image_filename.as_str()
    }
}

/// A render that follows a recentring draws the grid that was generated for the
/// viewport at its new centre, and finds the session ready at that centre.
pub proof fn lemma_render_follows_recentre(
    start: Fractal,
    moved: Fractal,
    mid_pt_re: Scalar,
    mid_pt_im: Scalar,
    cells: Seq<Seq<u32>>,
    listed: Seq<String>,
    first: Picture,
    relisted: Seq<String>,
    second: Picture,
)
    requires
        moved.well_formed(),
        moved.shows(
            &start,
            (Viewport { mid_pt_re, mid_pt_im, ..start.spec_viewport() }),
            cells,
            listed,
            first,
        ),
        moved.renders(relisted, second),
    ensures
        moved.spec_viewport().mid_pt_re == mid_pt_re,
        moved.spec_viewport().mid_pt_im == mid_pt_im,
        moved.spec_viewport().rows == start.spec_viewport().rows,
        moved.spec_viewport().cols == start.spec_viewport().cols,
        moved.spec_viewport().pt_div == start.spec_viewport().pt_div,
        moved.spec_viewport().max_its == start.spec_viewport().max_its,
        moved.spec_state() == SessionState::Ready,
        pictures(
            second.bytes@,
            cells,
            start.spec_viewport().rows,
            start.spec_viewport().cols,
            moved.spec_col_palette()@,
        ),
{
}

/// Two sessions that take in the same rows for one viewport end with the same
/// grid, whatever the order in which the rows of each were finished.
pub proof fn lemma_generation_ignores_order(
    one_before: Fractal,
    one: Fractal,
    other_before: Fractal,
    other: Fractal,
    viewport: Viewport,
    one_rows: Seq<(u32, Seq<u32>)>,
    other_rows: Seq<(u32, Seq<u32>)>,
    one_listed: Seq<String>,
    other_listed: Seq<String>,
    one_picture: Picture,
    other_picture: Picture,
)
    requires
        each_row_once(one_rows, viewport.rows),
        each_row_once(other_rows, viewport.rows),
        forall|i: int| 0 <= i < one_rows.len() ==> other_rows.contains(#[trigger] one_rows[i]),
        one.shows(&one_before, viewport, merged(one_rows, viewport.rows), one_listed, one_picture),
        other.shows(
            &other_before,
            viewport,
            merged(other_rows, viewport.rows),
            other_listed,
            other_picture,
        ),
    ensures
        one.spec_escape_its() matches Some(a) && other.spec_escape_its() matches Some(b) && a@
            == b@,
{
    lemma_merge_ignores_order(one_rows, other_rows, viewport.rows);
}

/// No value in the grid of a session exceeds the iteration cap of the viewport
/// that the grid was generated for.
pub proof fn lemma_values_within_cap(session: Fractal, row: int, col: int)
    requires
        session.well_formed(),
        session.spec_escape_its() matches Some(grid) && 0 <= row < grid.spec_rows() && 0 <= col
            < grid.spec_cols(),
    ensures
        session.spec_escape_its() matches Some(grid) && 0 <= grid@[row][col]
            <= session.spec_computed_for().max_its,
{
}

} // verus!
