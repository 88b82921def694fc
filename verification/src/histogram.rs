use vstd::prelude::*;
use crate::grid::{count_in_row, count_in_rows, shaped, EscapeGrid};

verus! {

/// The distribution of escape-time values over a grid: `counts[i]` cells hold the
/// value `bins[i]`.
#[derive(Debug)]
pub struct Histogram {
    pub bins: Vec<u32>,
    pub counts: Vec<u32>,
}

/// Whether `bins` and `counts` are the dense histogram of `cells` over the values
/// below `n`: one bin for each value in ascending order, empty bins included.
pub open spec fn is_histogram_of(
    bins: Seq<u32>,
    counts: Seq<u32>,
    cells: Seq<Seq<u32>>,
    n: u32,
) -> bool {
    &&& bins.len() == n
    &&& counts.len() == n
    &&& forall|i: int| 0 <= i < n ==> #[trigger] bins[i] == i
    &&& forall|i: int| 0 <= i < n ==> #[trigger] counts[i] == count_in_rows(cells, i as u32)
}

/// The sum of a series of counts.
pub open spec fn total(counts: Seq<u32>) -> nat
    decreases counts.len(),
{
    if counts.len() == 0 {
        0
    } else {
        total(counts.drop_last()) + counts.last() as nat
    }
}

/// How many values of `row` are below `n`.
pub open spec fn below_in_row(row: Seq<u32>, n: nat) -> nat
    decreases row.len(),
{
    if row.len() == 0 {
        0
    } else {
        below_in_row(row.drop_last(), n) + if (row.last() as nat) < n {
            1nat
        } else {
            0nat
        }
    }
}

/// How many values of `cells` are below `n`.
pub open spec fn below_in_rows(cells: Seq<Seq<u32>>, n: nat) -> nat
    decreases cells.len(),
{
    if cells.len() == 0 {
        0
    } else {
        below_in_rows(cells.drop_last(), n) + below_in_row(cells.last(), n)
    }
}

/// The occurrences in `row` of all the values below `n`, added up value by value.
pub open spec fn tally_in_row(row: Seq<u32>, n: nat) -> nat
    decreases n,
{
    if n == 0 {
        0
    } else {
        tally_in_row(row, (n - 1) as nat) + count_in_row(row, (n - 1) as u32)
    }
}

/// The occurrences in `cells` of all the values below `n`, added up value by value.
pub open spec fn tally_in_rows(cells: Seq<Seq<u32>>, n: nat) -> nat
    decreases n,
{
    if n == 0 {
        0
    } else {
        tally_in_rows(cells, (n - 1) as nat) + count_in_rows(cells, (n - 1) as u32)
    }
}

proof fn lemma_tally_in_row_step(row: Seq<u32>, n: nat)
    requires
        row.len() > 0,
        n <= u32::MAX + 1,
    ensures
        tally_in_row(row, n) == tally_in_row(row.drop_last(), n) + if (row.last() as nat) < n {
            1nat
        } else {
            0nat
        },
    decreases n,
{
    if n > 0 {
        lemma_tally_in_row_step(row, (n - 1) as nat);
    }
}

proof fn lemma_tally_in_row_empty(n: nat)
    ensures
        tally_in_row(Seq::<u32>::empty(), n) == 0,
    decreases n,
{
    if n > 0 {
        lemma_tally_in_row_empty((n - 1) as nat);
    }
}

/// Adding up a row value by value counts exactly the cells that hold a value below `n`.
pub proof fn lemma_tally_in_row(row: Seq<u32>, n: nat)
    requires
        n <= u32::MAX + 1,
    ensures
        tally_in_row(row, n) == below_in_row(row, n),
    decreases row.len(),
{
    if row.len() == 0 {
        assert(row == Seq::<u32>::empty());
        lemma_tally_in_row_empty(n);
    } else {
        lemma_tally_in_row_step(row, n);
        lemma_tally_in_row(row.drop_last(), n);
    }
}

proof fn lemma_tally_in_rows_step(cells: Seq<Seq<u32>>, n: nat)
    requires
        cells.len() > 0,
    ensures
        tally_in_rows(cells, n) == tally_in_rows(cells.drop_last(), n) + tally_in_row(
            cells.last(),
            n,
        ),
    decreases n,
{
    if n > 0 {
        lemma_tally_in_rows_step(cells, (n - 1) as nat);
    }
}

proof fn lemma_tally_in_rows_empty(n: nat)
    ensures
        tally_in_rows(Seq::<Seq<u32>>::empty(), n) == 0,
    decreases n,
{
    if n > 0 {
        lemma_tally_in_rows_empty((n - 1) as nat);
    }
}

/// Adding up a grid value by value counts exactly the cells that hold a value below `n`.
pub proof fn lemma_tally_in_rows(cells: Seq<Seq<u32>>, n: nat)
    requires
        n <= u32::MAX + 1,
    ensures
        tally_in_rows(cells, n) == below_in_rows(cells, n),
    decreases cells.len(),
{
    if cells.len() == 0 {
        assert(cells == Seq::<Seq<u32>>::empty());
        lemma_tally_in_rows_empty(n);
    } else {
        lemma_tally_in_rows_step(cells, n);
        lemma_tally_in_rows(cells.drop_last(), n);
        lemma_tally_in_row(cells.last(), n);
    }
}

/// The counts of a histogram add up to the value-by-value tally of its grid.
pub proof fn lemma_total_is_tally(counts: Seq<u32>, cells: Seq<Seq<u32>>)
    requires
        counts.len() <= u32::MAX,
        forall|i: int| 0 <= i < counts.len() ==> #[trigger] counts[i] == count_in_rows(cells, i as u32),
    ensures
        total(counts) == tally_in_rows(cells, counts.len()),
    decreases counts.len(),
{
    if counts.len() > 0 {
        let front = counts.drop_last();
        assert forall|i: int| 0 <= i < front.len() implies #[trigger] front[i] == count_in_rows(
            cells,
            i as u32,
        ) by {
            assert(front[i] == counts[i]);
        }
        lemma_total_is_tally(front, cells);
    }
}

proof fn lemma_row_splits_at_cap(row: Seq<u32>, cap: u32)
    requires
        forall|c: int| 0 <= c < row.len() ==> #[trigger] row[c] <= cap,
    ensures
        below_in_row(row, cap as nat) + count_in_row(row, cap) == row.len(),
    decreases row.len(),
{
    if row.len() > 0 {
        let front = row.drop_last();
        assert forall|c: int| 0 <= c < front.len() implies #[trigger] front[c] <= cap by {
            assert(front[c] == row[c]);
        }
        lemma_row_splits_at_cap(front, cap);
        assert(row.last() == row[row.len() - 1]);
    }
}

/// In a grid whose values stay at or below `cap`, every cell holds either a value
/// below `cap` or `cap` itself.
pub proof fn lemma_rows_split_at_cap(cells: Seq<Seq<u32>>, rows: u32, cols: u32, cap: u32)
    requires
        shaped(cells, rows, cols, cap),
    ensures
        below_in_rows(cells, cap as nat) + count_in_rows(cells, cap) == rows * cols,
    decreases cells.len(),
{
    if cells.len() == 0 {
        assert(rows * cols == 0) by (nonlinear_arith)
            requires
                rows == 0,
        ;
    } else {
        let front = cells.drop_last();
        let fewer = (rows - 1) as u32;
        assert(shaped(front, fewer, cols, cap)) by {
            assert forall|r: int| 0 <= r < front.len() implies (#[trigger] front[r]).len()
                == cols by {
                assert(front[r] == cells[r]);
            }
            assert forall|r: int, c: int|
                0 <= r < front.len() && 0 <= c < front[r].len() implies #[trigger] front[r][c]
                <= cap by {
                assert(front[r][c] == cells[r][c]);
            }
        }
        lemma_rows_split_at_cap(front, fewer, cols, cap);
        let last = cells.last();
        assert(last == cells[cells.len() - 1]);
        assert forall|c: int| 0 <= c < last.len() implies #[trigger] last[c] <= cap by {
            assert(last[c] == cells[cells.len() - 1][c]);
        }
        lemma_row_splits_at_cap(last, cap);
        assert(fewer * cols + cols == rows * cols) by (nonlinear_arith)
            requires
                fewer + 1 == rows,
        ;
    }
}

/// The counts of a grid's histogram over the values below its cap, together with
/// the number of cells that hold the cap itself, account for every cell.
pub proof fn lemma_histogram_accounts_for_cells(
    bins: Seq<u32>,
    counts: Seq<u32>,
    cells: Seq<Seq<u32>>,
    rows: u32,
    cols: u32,
    cap: u32,
)
    requires
        shaped(cells, rows, cols, cap),
        is_histogram_of(bins, counts, cells, cap),
    ensures
        total(counts) + count_in_rows(cells, cap) == rows * cols,
{
    lemma_total_is_tally(counts, cells);
    lemma_tally_in_rows(cells, cap as nat);
    lemma_rows_split_at_cap(cells, rows, cols, cap);
}

/// Where no cell of a grid holds the cap itself, the counts of its histogram add up
/// to the number of its cells.
pub proof fn lemma_histogram_total(
    bins: Seq<u32>,
    counts: Seq<u32>,
    cells: Seq<Seq<u32>>,
    rows: u32,
    cols: u32,
    cap: u32,
)
    requires
        shaped(cells, rows, cols, cap),
        is_histogram_of(bins, counts, cells, cap),
        count_in_rows(cells, cap) == 0,
    ensures
        total(counts) == rows * cols,
{
    lemma_histogram_accounts_for_cells(bins, counts, cells, rows, cols, cap);
}

/// Summarises the escape-time values of `grid` over the values below
/// `max_iterations`: for each such value, in ascending order, how many cells hold it.
pub fn histogram(grid: &EscapeGrid, max_iterations: u32) -> (out: Histogram)
    ensures
        is_histogram_of(out.bins@, out.counts@, grid@, max_iterations),
{
    let mut bins: Vec<u32> = Vec::new();
    let mut counts: Vec<u32> = Vec::new();
    let mut its: u32 = 0;
    while its < max_iterations
        invariant
            its <= max_iterations,
            bins@.len() == its,
            counts@.len() == its,
            forall|i: int| 0 <= i < its ==> #[trigger] bins@[i] == i,
            forall|i: int| 0 <= i < its ==> #[trigger] counts@[i] == count_in_rows(grid@, i as u32),
        decreases max_iterations - its,
    {
        let its_cnt: u32 = grid.count(its);
        bins.push(its);
        counts.push(its_cnt);
        its = its + 1;
    }
    Histogram { bins, counts }
}

} // verus!
