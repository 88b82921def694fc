use vstd::prelude::*;
use vstd::relations::injective_on;
use vstd::set_lib::{lemma_int_range, lemma_map_size, lemma_subset_equality, set_int_range};

verus! {

/// Whether a grid of `rows` by `cols` cells can be counted with 32 bits and drawn
/// with three bytes to the cell: the bytes of one row of pixels can be counted by
/// the machine, and the bytes of all of them can be held in one vector.
pub open spec fn fits(rows: u32, cols: u32) -> bool {
    &&& rows * cols <= u32::MAX
    &&& 3 * cols <= usize::MAX
    &&& 3 * (rows * cols) <= isize::MAX
}

/// Whether `cells` holds `rows` rows of `cols` values each, none above `cap`.
pub open spec fn shaped(cells: Seq<Seq<u32>>, rows: u32, cols: u32, cap: u32) -> bool {
    &&& cells.len() == rows
    &&& forall|r: int| 0 <= r < cells.len() ==> (#[trigger] cells[r]).len() == cols
    &&& forall|r: int, c: int|
        0 <= r < cells.len() && 0 <= c < cells[r].len() ==> #[trigger] cells[r][c] <= cap
}

/// The rows of a nested vector as a sequence of sequences.
pub open spec fn rows_of(cells: Vec<Vec<u32>>) -> Seq<Seq<u32>> {
    Seq::new(cells@.len(), |r: int| cells@[r]@)
}

/// How often `value` occurs in `row`.
pub open spec fn count_in_row(row: Seq<u32>, value: u32) -> nat
    decreases row.len(),
{
    if row.len() == 0 {
        0
    } else {
        count_in_row(row.drop_last(), value) + if row.last() == value {
            1nat
        } else {
            0nat
        }
    }
}

/// How often `value` occurs in all of `cells`.
pub open spec fn count_in_rows(cells: Seq<Seq<u32>>, value: u32) -> nat
    decreases cells.len(),
{
    if cells.len() == 0 {
        0
    } else {
        count_in_rows(cells.drop_last(), value) + count_in_row(cells.last(), value)
    }
}

/// A value occurs in a row at most as often as the row is long.
pub proof fn lemma_count_in_row_bound(row: Seq<u32>, value: u32)
    ensures
        count_in_row(row, value) <= row.len(),
    decreases row.len(),
{
    if row.len() > 0 {
        lemma_count_in_row_bound(row.drop_last(), value);
    }
}

/// A value occurs in rows of `cols` cells at most `cols` times to the row.
pub proof fn lemma_count_in_rows_bound(cells: Seq<Seq<u32>>, cols: nat, value: u32)
    requires
        forall|r: int| 0 <= r < cells.len() ==> (#[trigger] cells[r]).len() == cols,
    ensures
        count_in_rows(cells, value) <= cells.len() * cols,
    decreases cells.len(),
{
    if cells.len() > 0 {
        lemma_count_in_rows_bound(cells.drop_last(), cols, value);
        lemma_count_in_row_bound(cells.last(), value);
        assert(cells.drop_last().len() * cols + cols == cells.len() * cols) by (nonlinear_arith)
            requires
                cells.drop_last().len() + 1 == cells.len(),
        ;
    }
}

/// The rows that the workers of a generation hand in, each with its index, in the
/// order in which they were finished.
pub open spec fn finished_of(finished: Vec<(u32, Vec<u32>)>) -> Seq<(u32, Seq<u32>)> {
    Seq::new(finished@.len(), |i: int| (finished@[i].0, finished@[i].1@))
}

/// Whether each of the `rows` rows of a grid was handed in exactly once.
pub open spec fn each_row_once(finished: Seq<(u32, Seq<u32>)>, rows: u32) -> bool {
    &&& finished.len() == rows
    &&& forall|i: int| 0 <= i < finished.len() ==> (#[trigger] finished[i]).0 < rows
    &&& forall|i: int, j: int|
        0 <= i < j < finished.len() ==> (#[trigger] finished[i]).0 != (#[trigger] finished[j]).0
}

/// The place among the rows handed in of the row with the index `row`.
pub open spec fn finished_at(finished: Seq<(u32, Seq<u32>)>, row: int) -> int {
    choose|i: int| 0 <= i < finished.len() && finished[i].0 == row
}

/// The grid that the rows handed in make up: each row at its index, in whatever
/// order the rows were finished.
pub open spec fn merged(finished: Seq<(u32, Seq<u32>)>, rows: u32) -> Seq<Seq<u32>> {
    Seq::new(rows as nat, |r: int| finished[finished_at(finished, r)].1)
}

/// Where each row was handed in exactly once, every row was handed in.
pub proof fn lemma_every_row_finished(finished: Seq<(u32, Seq<u32>)>, rows: u32, row: int)
    requires
        each_row_once(finished, rows),
        0 <= row < rows,
    ensures
        0 <= finished_at(finished, row) < finished.len(),
        finished[finished_at(finished, row)].0 == row,
{
    let places = set_int_range(0, rows as int);
    let f = |i: int| finished[i].0 as int;
    let indices = places.map(f);
    lemma_int_range(0, rows as int);
    assert(injective_on(f, places)) by {
        assert forall|x: int, y: int|
            places.contains(x) && places.contains(y) && #[trigger] f(x) == #[trigger] f(
                y,
            ) implies x == y by {
            if x < y {
                assert(finished[x].0 != finished[y].0);
            } else if y < x {
                assert(finished[y].0 != finished[x].0);
            }
        }
    }
    lemma_map_size(places, indices, f);
    assert(indices.subset_of(places)) by {
        assert forall|v: int| indices.contains(v) implies places.contains(v) by {
            let i = choose|i: int| places.contains(i) && f(i) == v;
            assert(finished[i].0 < rows);
        }
    }
    lemma_subset_equality(indices, places);
    assert(places.contains(row));
    assert(indices.contains(row));
    let i = choose|i: int| places.contains(i) && f(i) == row;
    assert(0 <= i < finished.len() && finished[i].0 == row);
}

/// The grid that the rows handed in make up does not depend on the order in which
/// they were finished: two runs that hand in the same rows make up the same grid.
pub proof fn lemma_merge_ignores_order(
    a: Seq<(u32, Seq<u32>)>,
    b: Seq<(u32, Seq<u32>)>,
    rows: u32,
)
    requires
        each_row_once(a, rows),
        each_row_once(b, rows),
        forall|i: int| 0 <= i < a.len() ==> b.contains(#[trigger] a[i]),
    ensures
        merged(a, rows) == merged(b, rows),
{
    assert forall|r: int| 0 <= r < rows implies merged(a, rows)[r] == merged(b, rows)[r] by {
        lemma_every_row_finished(a, rows, r);
        lemma_every_row_finished(b, rows, r);
        let ia = finished_at(a, r);
        let ib = finished_at(b, r);
        assert(b.contains(a[ia]));
        let j = choose|j: int| 0 <= j < b.len() && b[j] == a[ia];
        if j < ib {
            assert(b[j].0 != b[ib].0);
        } else if ib < j {
            assert(b[ib].0 != b[j].0);
        }
    }
    assert(merged(a, rows) =~= merged(b, rows));
}

/// Puts the rows that the workers of a generation handed in at their indices,
/// whatever the order in which they were finished. Nothing is made where a row is
/// missing, was handed in twice, or has an index that the grid does not have.
pub fn merge_rows(rows: u32, finished: Vec<(u32, Vec<u32>)>) -> (out: Option<Vec<Vec<u32>>>)
    ensures
        out.is_some() <==> each_row_once(finished_of(finished), rows),
        out matches Some(cells) ==> rows_of(cells) == merged(finished_of(finished), rows),
{
    let ghost all = finished_of(finished);
    if finished.len() != rows as usize {
        return None;
    }
    let mut cells: Vec<Vec<u32>> = Vec::new();
    let mut filled: Vec<bool> = Vec::new();
    let mut r: u32 = 0;
    while r < rows
        invariant
            r <= rows,
            cells@.len() == r,
            filled@.len() == r,
            forall|k: int| 0 <= k < r ==> !filled@[k],
        decreases rows - r,
    {
        cells.push(Vec::new());
        filled.push(false);
        r = r + 1;
    }
    let mut rest = finished;
    while rest.len() > 0
        invariant
            all == finished_of(finished),
            all.len() == rows,
            cells@.len() == rows,
            filled@.len() == rows,
            rest@.len() <= rows,
            forall|k: int| 0 <= k < rest@.len() ==> all[k] == (rest@[k].0, rest@[k].1@),
            forall|k: int|
                rest@.len() <= k < rows ==> {
                    &&& (#[trigger] all[k]).0 < rows
                    &&& filled@[all[k].0 as int]
                    &&& cells@[all[k].0 as int]@ == all[k].1
                },
            forall|q: int|
                0 <= q < rows && #[trigger] filled@[q] ==> exists|k: int|
                    rest@.len() <= k < rows && (#[trigger] all[k]).0 == q,
            forall|i: int, j: int|
                rest@.len() <= i < j < rows ==> (#[trigger] all[i]).0 != (#[trigger] all[j]).0,
        decreases rest.len(),
    {
        let ghost m = rest@.len() - 1;
        let ghost before = filled@;
        let (row, values) = match rest.pop() {
            Some(item) => item,
            None => {
                return None;
            },
        };
        assert(all[m] == (row, values@));
        if row >= rows {
            return None;
        }
        if filled[row as usize] {
            proof {
                let k = choose|k: int| m < k < rows && (#[trigger] all[k]).0 == row;
                assert(all[m].0 == all[k].0);
            }
            return None;
        }
        cells.set(row as usize, values);
        filled.set(row as usize, true);
        proof {
            assert forall|q: int| 0 <= q < rows && #[trigger] filled@[q] implies exists|k: int|
                m <= k < rows && (#[trigger] all[k]).0 == q by {
                if q == row {
                    assert(all[m].0 == q);
                } else {
                    assert(before[q]);
                    let k = choose|k: int| m < k < rows && (#[trigger] all[k]).0 == q;
                    assert(all[k].0 == q);
                }
            }
        }
    }
    proof {
        assert(each_row_once(all, rows));
        assert forall|q: int| 0 <= q < rows implies rows_of(cells)[q] == merged(all, rows)[q] by {
            lemma_every_row_finished(all, rows, q);
            let i = finished_at(all, q);
            assert(cells@[all[i].0 as int]@ == all[i].1);
        }
        assert(rows_of(cells) =~= merged(all, rows));
    }
    Some(cells)
}

/// The escape-time values of one generation: a dense grid, row by row, in which no
/// value exceeds the iteration cap that the grid was made for.
pub struct EscapeGrid {
    rows: u32,
    cols: u32,
    cap: u32,
    cells: Vec<Vec<u32>>,
}

impl View for EscapeGrid {
    type V = Seq<Seq<u32>>;

    closed spec fn view(&self) -> Seq<Seq<u32>> {
        rows_of(self.cells)
    }
}

impl EscapeGrid {
    #[verifier::type_invariant]
    spec fn inv(&self) -> bool {
        self.well_formed()
    }

    /// The number of rows.
    pub closed spec fn spec_rows(&self) -> u32 {
        self.rows
    }

    /// The number of columns.
    pub closed spec fn spec_cols(&self) -> u32 {
        self.cols
    }

    /// The iteration cap that the grid was made for.
    pub closed spec fn spec_max_iterations(&self) -> u32 {
        self.cap
    }

    /// What holds of every grid: its cells have the shape that its dimensions give,
    /// stay at or below its cap, and fit.
    pub open spec fn well_formed(&self) -> bool {
        &&& fits(self.spec_rows(), self.spec_cols())
        &&& shaped(self@, self.spec_rows(), self.spec_cols(), self.spec_max_iterations())
    }

    /// Makes a grid of `cells`, if they have the shape `rows` by `cols`, hold no value
    /// above `max_iterations`, and fit.
    pub fn from_rows(rows: u32, cols: u32, max_iterations: u32, cells: Vec<Vec<u32>>) -> (out:
        Option<EscapeGrid>)
        ensures
            out.is_some() <==> fits(rows, cols) && shaped(
                rows_of(cells),
                rows,
                cols,
                max_iterations,
            ),
            out matches Some(grid) ==> {
                &&& grid@ == rows_of(cells)
                &&& grid.spec_rows() == rows
                &&& grid.spec_cols() == cols
                &&& grid.spec_max_iterations() == max_iterations
                &&& grid.well_formed()
            },
    {
        if !fits_exec(rows, cols) {
            return None;
        }
        if cells.len() != rows as usize {
            return None;
        }
        let ghost seen = rows_of(cells);
        let mut r: usize = 0;
        while r < cells.len()
            invariant
                seen == rows_of(cells),
                r <= cells.len(),
                cells.len() == rows,
                forall|i: int| 0 <= i < r ==> (#[trigger] seen[i]).len() == cols,
                forall|i: int, c: int|
                    0 <= i < r && 0 <= c < seen[i].len() ==> #[trigger] seen[i][c]
                        <= max_iterations,
            decreases cells.len() - r,
        {
            let row = &cells[r];
            assert(row@ == seen[r as int]);
            if row.len() != cols as usize {
                return None;
            }
            let mut c: usize = 0;
            while c < row.len()
                invariant
                    c <= row.len(),
                    seen == rows_of(cells),
                    r < cells.len(),
                    row@ == seen[r as int],
                    forall|j: int| 0 <= j < c ==> #[trigger] row@[j] <= max_iterations,
                decreases row.len() - c,
            {
                if row[c] > max_iterations {
                    assert(seen[r as int][c as int] > max_iterations);
                    return None;
                }
                c = c + 1;
            }
            r = r + 1;
        }
        Some(EscapeGrid { rows, cols, cap: max_iterations, cells })
    }

    /// Returns the number of rows.
    #[verifier::when_used_as_spec(spec_rows)]
    pub fn rows(&self) -> (out: u32)
        ensures
            out == self.spec_rows(),
            self.well_formed(),
    {
        proof {
            use_type_invariant(self);
        }
        self.rows
    }

    /// Returns the number of columns.
    #[verifier::when_used_as_spec(spec_cols)]
    pub fn cols(&self) -> (out: u32)
        ensures
            out == self.spec_cols(),
    {
        self.cols
    }

    /// Returns the iteration cap that the grid was made for.
    #[verifier::when_used_as_spec(spec_max_iterations)]
    pub fn max_iterations(&self) -> (out: u32)
        ensures
            out == self.spec_max_iterations(),
    {
        self.cap
    }

    /// Returns the value of the cell in row `row` and column `col`, or nothing where
    /// the grid has no such cell.
    pub fn get(&self, row: u32, col: u32) -> (out: Option<u32>)
        ensures
            self.well_formed(),
            out.is_some() <==> row < self.spec_rows() && col < self.spec_cols(),
            out matches Some(value) ==> value == self@[row as int][col as int],
    {
        proof {
            use_type_invariant(self);
        }
        if row < self.rows && col < self.cols {
            assert(self@[row as int] == self.cells@[row as int]@);
            Some(self.cells[row as usize][col as usize])
        } else {
            None
        }
    }

    /// Counts the cells that hold exactly `value`.
    pub fn count(&self, value: u32) -> (out: u32)
        ensures
            self.well_formed(),
            out == count_in_rows(self@, value),
    {
        proof {
            use_type_invariant(self);
        }
        let ghost all = self@;
        let mut total: u32 = 0;
        let mut r: usize = 0;
        while r < self.cells.len()
            invariant
                self.well_formed(),
                all == self@,
                all == rows_of(self.cells),
                r <= self.cells.len(),
                total == count_in_rows(all.take(r as int), value),
            decreases self.cells.len() - r,
        {
            let row = &self.cells[r];
            assert(row@ == all[r as int]);
            let mut in_row: u32 = 0;
            let mut c: usize = 0;
            while c < row.len()
                invariant
                    c <= row.len(),
                    row@.len() == self.spec_cols(),
                    in_row == count_in_row(row@.take(c as int), value),
                decreases row.len() - c,
            {
                proof {
                    lemma_count_in_row_bound(row@.take(c as int), value);
                    assert(row@.take(c + 1).drop_last() == row@.take(c as int));
                }
                if row[c] == value {
                    in_row = in_row + 1;
                }
                c = c + 1;
            }
            proof {
                assert(row@.take(row@.len() as int) == row@);
                assert(all.take(r + 1).drop_last() == all.take(r as int));
                lemma_count_in_rows_bound(all.take(r + 1), self.spec_cols() as nat, value);
                assert((r + 1) * self.spec_cols() <= self.spec_rows() * self.spec_cols())
                    by (nonlinear_arith)
                    requires
                        r + 1 <= self.spec_rows(),
                ;
            }
            total = total + in_row;
            r = r + 1;
        }
        assert(all.take(all.len() as int) == all);
        total
    }
}

/// Tests whether a grid of `rows` by `cols` cells fits.
pub fn fits_exec(rows: u32, cols: u32) -> (out: bool)
    ensures
        out == fits(rows, cols),
{
    assert(rows * cols <= 0xFFFF_FFFF * 0xFFFF_FFFF) by (nonlinear_arith)
        requires
            0 <= rows <= 0xFFFF_FFFF,
            0 <= cols <= 0xFFFF_FFFF,
    ;
    let cells: u64 = (rows as u64) * (cols as u64);
    if cells > u32::MAX as u64 {
        return false;
    }
    if 3 * (cols as u64) > usize::MAX as u64 {
        return false;
    }
    3 * cells <= isize::MAX as u64
}

} // verus!
