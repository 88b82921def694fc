use vstd::prelude::*;
use crate::error::FractalError;
use crate::position::{
    lemma_scaled_monotone,
    scaled,
    UnitPosition,
    NEGATIVE_ZERO_BITS,
    ONE_BITS,
};

verus! {

/// An opaque colour with eight bits for each of red, green and blue.
#[derive(Clone, Copy, Debug, PartialEq, Eq, Structural)]
pub struct Rgb8 {
    pub r: u8,
    pub g: u8,
    pub b: u8,
}

/// The background colour, used where no colour stop applies.
pub open spec fn black() -> Rgb8 {
    Rgb8 { r: 0, g: 0, b: 0 }
}

/// One colour stop of a palette.
#[derive(Clone, Debug)]
pub struct PaletteEntry {
    /// Where the stop lies between iteration zero and the iteration cap.
    pub relative_position: UnitPosition,
    /// The iteration count at which the stop's colour applies unmixed.
    pub absolute_boundary: u32,
    /// A free-text description of the stop.
    pub label: String,
    /// The colour of the stop.
    pub color: Rgb8,
}

/// One colour stop of a palette definition, as it is read and before it is checked.
#[derive(Clone, Debug)]
pub struct PaletteStop {
    /// The bit pattern of the single-precision number that places the stop between
    /// iteration zero and the iteration cap.
    pub rel_index: u32,
    /// A placeholder for the stop's boundary, which the definition does not decide.
    pub index: u32,
    /// A free-text description of the stop.
    pub comment: String,
    /// The colour of the stop.
    pub color: Rgb8,
}

/// The mix of two channel values `lo` and `hi` at `k` steps out of `d` from `lo`
/// towards `hi`: the weighted mean `(lo * (d - k) + hi * k) / d`, rounded to the
/// nearest integer, halves upwards.
pub open spec fn blend_channel(lo: u8, hi: u8, k: int, d: int) -> int {
    (2 * (lo * (d - k) + hi * k) + d) / (2 * d)
}

/// The colour `k` steps out of `d` from `lo` towards `hi`, channel by channel.
pub open spec fn blend(lo: Rgb8, hi: Rgb8, k: int, d: int) -> Rgb8 {
    Rgb8 {
        r: blend_channel(lo.r, hi.r, k, d) as u8,
        g: blend_channel(lo.g, hi.g, k, d) as u8,
        b: blend_channel(lo.b, hi.b, k, d) as u8,
    }
}

/// Whether `its` lies above the boundary of stop `i` and at or below that of stop `i + 1`.
pub open spec fn pair_holds(stops: Seq<PaletteEntry>, i: int, its: u32) -> bool {
    &&& 0 <= i
    &&& i + 1 < stops.len()
    &&& stops[i].absolute_boundary < its
    &&& its <= stops[i + 1].absolute_boundary
}

/// Whether `i` is the first pair of neighbouring stops that holds `its`.
pub open spec fn first_pair(stops: Seq<PaletteEntry>, i: int, its: u32) -> bool {
    &&& pair_holds(stops, i, its)
    &&& forall|j: int| 0 <= j < i ==> !pair_holds(stops, j, its)
}

/// The colour that a sequence of stops gives to an iteration value.
///
/// Between two neighbouring stops the colour is mixed linearly; above the last
/// boundary it is the last stop's colour; everywhere else it is black.
pub open spec fn color_at(stops: Seq<PaletteEntry>, its: u32) -> Rgb8 {
    if exists|i: int| pair_holds(stops, i, its) {
        let i = choose|i: int| first_pair(stops, i, its);
        blend(
            stops[i].color,
            stops[i + 1].color,
            its - stops[i].absolute_boundary,
            stops[i + 1].absolute_boundary - stops[i].absolute_boundary,
        )
    } else if stops.len() > 0 && its > stops.last().absolute_boundary {
        stops.last().color
    } else {
        black()
    }
}

/// The rounded mean never leaves the range spanned by eight bits.
pub proof fn lemma_blend_channel_bounds(lo: u8, hi: u8, k: int, d: int)
    requires
        0 <= k <= d,
        0 < d,
    ensures
        0 <= blend_channel(lo, hi, k, d) <= 255,
{
    let n = lo * (d - k) + hi * k;
    assert(0 <= lo * (d - k) <= 255 * (d - k)) by (nonlinear_arith)
        requires
            0 <= lo <= 255,
            0 <= d - k,
    ;
    assert(0 <= hi * k <= 255 * k) by (nonlinear_arith)
        requires
            0 <= hi <= 255,
            0 <= k,
    ;
    assert(0 <= n <= 255 * d);
    assert(0 <= (2 * n + d) / (2 * d) <= 255) by (nonlinear_arith)
        requires
            0 <= n <= 255 * d,
            0 < d,
    ;
}

/// The rounded mean is the integer nearest to the exact mean: twice the distance
/// between `d` times the result and the weighted sum is at most `d`.
pub proof fn lemma_blend_channel_nearest(lo: u8, hi: u8, k: int, d: int)
    requires
        0 <= k <= d,
        0 < d,
    ensures
        ({
            let n = lo * (d - k) + hi * k;
            let q = blend_channel(lo, hi, k, d);
            2 * n - d < 2 * d * q <= 2 * n + d
        }),
{
    let n = lo * (d - k) + hi * k;
    let q = (2 * n + d) / (2 * d);
    assert(2 * n - d < 2 * d * q <= 2 * n + d) by (nonlinear_arith)
        requires
            q == (2 * n + d) / (2 * d),
            0 < d,
    ;
}

/// Mixes one channel.
fn mix_channel(lo: u8, hi: u8, k: u32, d: u32) -> (out: u8)
    requires
        k <= d,
        0 < d,
    ensures
        out == blend_channel(lo, hi, k as int, d as int),
{
    proof {
        lemma_blend_channel_bounds(lo, hi, k as int, d as int);
        assert(0 <= lo * (d - k) <= 255 * 0xFFFF_FFFF) by (nonlinear_arith)
            requires
                0 <= lo <= 255,
                0 <= d - k <= 0xFFFF_FFFF,
        ;
        assert(0 <= hi * k <= 255 * 0xFFFF_FFFF) by (nonlinear_arith)
            requires
                0 <= hi <= 255,
                0 <= k <= 0xFFFF_FFFF,
        ;
    }
    let wide_d: u64 = d as u64;
    let wide_k: u64 = k as u64;
    let sum: u64 = (lo as u64) * (wide_d - wide_k) + (hi as u64) * wide_k;
    let q: u64 = (2 * sum + wide_d) / (2 * wide_d);
    q as u8
}

/// Determines the colour of a pixel from its iteration value, by linear
/// interpolation between the neighbouring stops of the palette.
pub fn det_px_col(its: u32, col_pal: &Vec<PaletteEntry>) -> (out: Rgb8)
    ensures
        out == color_at(col_pal@, its),
{
    let n: usize = col_pal.len();
    let pairs: usize = if n == 0 { 0 } else { n - 1 };
    let mut i: usize = 0;
    while i < pairs
        invariant
            n == col_pal@.len(),
            pairs + 1 == n || (pairs == 0 && n == 0),
            i <= pairs,
            forall|j: int| 0 <= j < i ==> !pair_holds(col_pal@, j, its),
        decreases pairs - i,
    {
        let lower: u32 = col_pal[i].absolute_boundary;
        let upper: u32 = col_pal[i + 1].absolute_boundary;
        if its > lower && its <= upper {
            let lo: Rgb8 = col_pal[i].color;
            let hi: Rgb8 = col_pal[i + 1].color;
            let k: u32 = its - lower;
            let d: u32 = upper - lower;
            proof {
                assert(pair_holds(col_pal@, i as int, its));
                assert(first_pair(col_pal@, i as int, its));
                let w = choose|w: int| first_pair(col_pal@, w, its);
                assert(w == i);
            }
            return Rgb8 {
                r: mix_channel(lo.r, hi.r, k, d),
                g: mix_channel(lo.g, hi.g, k, d),
                b: mix_channel(lo.b, hi.b, k, d),
            };
        }
        i = i + 1;
    }
    assert(forall|j: int| !pair_holds(col_pal@, j, its));
    if n > 0 {
        if its > col_pal[n - 1].absolute_boundary {
            return col_pal[n - 1].color;
        }
    }
    Rgb8 { r: 0, g: 0, b: 0 }
}

/// The position that an accepted bit pattern stands for.
pub open spec fn position_bits(rel_index: u32) -> u32 {
    if rel_index == NEGATIVE_ZERO_BITS {
        0
    } else {
        rel_index
    }
}

/// Whether a definition can be made a palette: every stop is placed between zero
/// and one, both included, and no stop is placed before the one that precedes it.
pub open spec fn acceptable(definition: Seq<PaletteStop>) -> bool {
    &&& forall|i: int|
        0 <= i < definition.len() ==> position_bits(#[trigger] definition[i].rel_index)
            <= ONE_BITS
    &&& forall|i: int, j: int|
        0 <= i < j < definition.len() ==> position_bits(#[trigger] definition[i].rel_index)
            <= position_bits(#[trigger] definition[j].rel_index)
}

/// Whether `stops` are the stops of `definition`, in its order, with their
/// positions, labels and colours.
pub open spec fn reads(stops: Seq<PaletteEntry>, definition: Seq<PaletteStop>) -> bool {
    &&& stops.len() == definition.len()
    &&& forall|i: int|
        0 <= i < stops.len() ==> {
            &&& (#[trigger] stops[i]).relative_position.spec_bits() == position_bits(
                definition[i].rel_index,
            )
            &&& stops[i].label@ == definition[i].comment@
            &&& stops[i].color == definition[i].color
        }
}

/// Whether no stop is placed before the one that precedes it.
pub open spec fn positions_ascend(stops: Seq<PaletteEntry>) -> bool {
    forall|i: int, j: int|
        0 <= i < j < stops.len() ==> (#[trigger] stops[i]).relative_position.spec_bits() <= (
        #[trigger] stops[j]).relative_position.spec_bits()
}

/// Whether no stop has a boundary below that of the one that precedes it.
pub open spec fn boundaries_ascend(stops: Seq<PaletteEntry>) -> bool {
    forall|i: int, j: int|
        0 <= i < j < stops.len() ==> (#[trigger] stops[i]).absolute_boundary <= (
        #[trigger] stops[j]).absolute_boundary
}

/// Whether the boundary of every stop is its position times `cap`, rounded to the
/// nearest integer.
pub open spec fn scaled_to(stops: Seq<PaletteEntry>, cap: u32) -> bool {
    forall|i: int|
        0 <= i < stops.len() ==> {
            &&& (#[trigger] stops[i]).relative_position.well_formed()
            &&& stops[i].absolute_boundary == scaled(stops[i].relative_position.spec_bits(), cap)
        }
}

/// Whether `after` holds the stops of `before` with nothing changed but their
/// boundaries.
pub open spec fn same_stops(after: Seq<PaletteEntry>, before: Seq<PaletteEntry>) -> bool {
    &&& after.len() == before.len()
    &&& forall|i: int|
        0 <= i < after.len() ==> {
            &&& (#[trigger] after[i]).relative_position == before[i].relative_position
            &&& after[i].label@ == before[i].label@
            &&& after[i].color == before[i].color
        }
}

/// Stops that ascend in position and are scaled to one cap ascend in boundary.
pub proof fn lemma_scaled_stops_ascend(stops: Seq<PaletteEntry>, cap: u32)
    requires
        positions_ascend(stops),
        scaled_to(stops, cap),
    ensures
        boundaries_ascend(stops),
{
    assert forall|i: int, j: int| 0 <= i < j < stops.len() implies (
    #[trigger] stops[i]).absolute_boundary <= (#[trigger] stops[j]).absolute_boundary by {
        lemma_scaled_monotone(
            stops[i].relative_position.spec_bits(),
            stops[j].relative_position.spec_bits(),
            cap,
        );
    }
}

/// Among stops that ascend in boundary, at most one pair of neighbours holds a
/// given iteration value.
pub proof fn lemma_pair_unique(stops: Seq<PaletteEntry>, its: u32, i: int, j: int)
    requires
        boundaries_ascend(stops),
        pair_holds(stops, i, its),
        pair_holds(stops, j, its),
    ensures
        i == j,
{
    if i < j {
        assert(stops[i + 1].absolute_boundary <= stops[j].absolute_boundary || i + 1 == j);
    } else if j < i {
        assert(stops[j + 1].absolute_boundary <= stops[i].absolute_boundary || j + 1 == i);
    }
}

/// At the boundary of a stop that lies above the boundary of the stop before it,
/// the colour is exactly the stop's own: nothing of the neighbour is mixed in.
pub proof fn lemma_color_at_boundary(stops: Seq<PaletteEntry>, i: int)
    requires
        boundaries_ascend(stops),
        1 <= i < stops.len(),
        stops[i - 1].absolute_boundary < stops[i].absolute_boundary,
    ensures
        color_at(stops, stops[i].absolute_boundary) == stops[i].color,
{
    let its = stops[i].absolute_boundary;
    assert(pair_holds(stops, i - 1, its));
    assert forall|j: int| 0 <= j < i - 1 implies !pair_holds(stops, j, its) by {
        if pair_holds(stops, j, its) {
            lemma_pair_unique(stops, its, j, i - 1);
        }
    }
    assert(first_pair(stops, i - 1, its));
    let w = choose|w: int| first_pair(stops, w, its);
    lemma_pair_unique(stops, its, w, i - 1);
    let lo = stops[i - 1].color;
    let hi = stops[i].color;
    let d = its - stops[i - 1].absolute_boundary;
    lemma_blend_channel_end(lo.r, hi.r, d);
    lemma_blend_channel_end(lo.g, hi.g, d);
    lemma_blend_channel_end(lo.b, hi.b, d);
}

/// The mix at the last of its steps is the upper value alone.
pub proof fn lemma_blend_channel_end(lo: u8, hi: u8, d: int)
    requires
        0 < d,
    ensures
        blend_channel(lo, hi, d, d) == hi,
{
    assert((2 * (lo * (d - d) + hi * d) + d) / (2 * d) == hi) by (nonlinear_arith)
        requires
            0 < d,
            0 <= hi,
    ;
}

/// Among stops that ascend in boundary, an iteration value at or below the first
/// boundary gets the background colour, and one above the last boundary gets the
/// colour of the last stop.
pub proof fn lemma_color_outside(stops: Seq<PaletteEntry>, its: u32)
    requires
        boundaries_ascend(stops),
        stops.len() > 0,
    ensures
        its <= stops[0].absolute_boundary ==> color_at(stops, its) == black(),
        its > stops.last().absolute_boundary ==> color_at(stops, its) == stops.last().color,
{
    assert(stops.last() == stops[stops.len() - 1]);
    if its <= stops[0].absolute_boundary {
        assert forall|i: int| !pair_holds(stops, i, its) by {
            if pair_holds(stops, i, its) {
                assert(stops[0].absolute_boundary <= stops[i].absolute_boundary || i == 0);
            }
        }
    }
    if its > stops.last().absolute_boundary {
        assert forall|i: int| !pair_holds(stops, i, its) by {
            if pair_holds(stops, i, its) {
                assert(stops[i + 1].absolute_boundary <= stops.last().absolute_boundary || i + 1
                    == stops.len() - 1);
            }
        }
    }
}

/// An ordered sequence of colour stops, each with a boundary scaled to one
/// iteration cap.
pub struct Palette {
    entries: Vec<PaletteEntry>,
    cap: u32,
}

impl View for Palette {
    type V = Seq<PaletteEntry>;

    closed spec fn view(&self) -> Seq<PaletteEntry> {
        self.entries@
    }
}

impl Palette {
    #[verifier::type_invariant]
    spec fn inv(&self) -> bool {
        self.well_formed()
    }

    /// The iteration cap that the boundaries are scaled to.
    pub closed spec fn spec_max_iterations(&self) -> u32 {
        self.cap
    }

    /// What holds of every palette: its stops ascend in position, and their
    /// boundaries are scaled to its iteration cap.
    pub open spec fn well_formed(&self) -> bool {
        &&& positions_ascend(self@)
        &&& scaled_to(self@, self.spec_max_iterations())
    }

    /// Makes a palette without stops, which colours every value black.
    pub fn new() -> (out: Palette)
        ensures
            out@ == Seq::<PaletteEntry>::empty(),
            out.spec_max_iterations() == 0,
            out.well_formed(),
    {
        Palette { entries: Vec::new(), cap: 0 }
    }

    /// Makes a palette of a definition. The definition is refused where a stop is
    /// placed outside the range from zero to one, or before the stop that precedes
    /// it. The boundaries of the new palette are scaled to the iteration cap zero.
    pub fn load(definition: &Vec<PaletteStop>) -> (out: Result<Palette, FractalError>)
        ensures
            out.is_ok() <==> acceptable(definition@),
            out matches Ok(palette) ==> {
                &&& reads(palette@, definition@)
                &&& palette.spec_max_iterations() == 0
                &&& palette.well_formed()
            },
            out matches Err(e) ==> e == FractalError::PaletteFormat,
    {
        let mut entries: Vec<PaletteEntry> = Vec::new();
        let mut i: usize = 0;
        while i < definition.len()
            invariant
                i <= definition.len(),
                entries@.len() == i,
                acceptable(definition@.take(i as int)),
                reads(entries@, definition@.take(i as int)),
                scaled_to(entries@, 0),
            decreases definition.len() - i,
        {
            let stop = &definition[i];
            let position = match UnitPosition::from_bits(stop.rel_index) {
                Some(position) => position,
                None => {
                    return Err(FractalError::PaletteFormat);
                },
            };
            if i > 0 {
                if entries[i - 1].relative_position.bits() > position.bits() {
                    assert(definition@.take(i as int)[i - 1] == definition@[i - 1]);
                    return Err(FractalError::PaletteFormat);
                }
            }
            let entry = PaletteEntry {
                relative_position: position,
                absolute_boundary: position.scale(0),
                label: stop.comment.clone(),
                color: stop.color,
            };
            proof {
                let before = definition@.take(i as int);
                let after = definition@.take(i + 1);
                assert(after.drop_last() =~= before);
                assert forall|a: int, b: int| 0 <= a < b < after.len() implies position_bits(
                    #[trigger] after[a].rel_index,
                ) <= position_bits(#[trigger] after[b].rel_index) by {
                    assert(after[a] == before[a] || a == i);
                    if b == i && a < i - 1 {
                        assert(position_bits(before[a].rel_index) <= position_bits(
                            before[i - 1].rel_index,
                        ));
                    }
                }
            }
            entries.push(entry);
            i = i + 1;
        }
        assert(definition@.take(definition@.len() as int) =~= definition@);
        Ok(Palette { entries, cap: 0 })
    }

    /// Returns the palette with the boundary of every stop recomputed for the
    /// iteration cap `max_iterations`: its position times the cap, rounded to the
    /// nearest integer.
    pub fn rescaled(&self, max_iterations: u32) -> (out: Palette)
        ensures
            same_stops(out@, self@),
            out.spec_max_iterations() == max_iterations,
            out.well_formed(),
            self.well_formed(),
    {
        proof {
            use_type_invariant(self);
        }
        let mut entries: Vec<PaletteEntry> = Vec::new();
        let mut i: usize = 0;
        while i < self.entries.len()
            invariant
                self.well_formed(),
                i <= self.entries.len(),
                entries@.len() == i,
                same_stops(entries@, self@.take(i as int)),
                scaled_to(entries@, max_iterations),
            decreases self.entries.len() - i,
        {
            let entry = &self.entries[i];
            let fresh = PaletteEntry {
                relative_position: entry.relative_position,
                absolute_boundary: entry.relative_position.scale(max_iterations),
                label: entry.label.clone(),
                color: entry.color,
            };
            entries.push(fresh);
            i = i + 1;
        }
        assert(self@.take(self@.len() as int) =~= self@);
        Palette { entries, cap: max_iterations }
    }

    /// Recomputes the boundary of every stop for the iteration cap
    /// `max_iterations`: its position times the cap, rounded to the nearest integer.
    pub fn rescale(&mut self, max_iterations: u32)
        ensures
            same_stops(final(self)@, old(self)@),
            final(self).spec_max_iterations() == max_iterations,
            final(self).well_formed(),
    {
        *self = self.rescaled(max_iterations);
    }

    /// Returns the iteration cap that the boundaries are scaled to.
    #[verifier::when_used_as_spec(spec_max_iterations)]
    pub fn max_iterations(&self) -> (out: u32)
        ensures
            out == self.spec_max_iterations(),
            self.well_formed(),
    {
        proof {
            use_type_invariant(self);
        }
        self.cap
    }

    /// Returns the stops of the palette, in their order.
    pub fn entries(&self) -> (out: &Vec<PaletteEntry>)
        ensures
            out@ == self@,
            self.well_formed(),
    {
        proof {
            use_type_invariant(self);
        }
        &self.entries
    }

    /// Returns the colour of an iteration value: mixed linearly between the two
    /// neighbouring stops that hold it, the last stop's colour above the last
    /// boundary, and black at or below the first.
    pub fn color_for(&self, iteration_value: u32) -> (out: Rgb8)
        ensures
            out == color_at(self@, iteration_value),
            self.well_formed(),
    {
        proof {
            use_type_invariant(self);
        }
        det_px_col(iteration_value, &self.entries)
    }
}

} // verus!
