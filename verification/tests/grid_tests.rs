use fractal_core::grid::{fits_exec, merge_rows, EscapeGrid};
use fractal_core::histogram::histogram;

fn sample() -> EscapeGrid {
    EscapeGrid::from_rows(2, 3, 5, vec![vec![0, 1, 5], vec![1, 1, 3]]).unwrap()
}

#[test]
fn from_rows_keeps_the_cells() {
    let grid = sample();
    assert_eq!(grid.rows(), 2);
    assert_eq!(grid.cols(), 3);
    assert_eq!(grid.max_iterations(), 5);
    assert_eq!(grid.get(0, 0), Some(0));
    assert_eq!(grid.get(0, 2), Some(5));
    assert_eq!(grid.get(1, 0), Some(1));
    assert_eq!(grid.get(1, 2), Some(3));
}

#[test]
fn get_outside_the_grid_is_nothing() {
    let grid = sample();
    assert_eq!(grid.get(2, 0), None);
    assert_eq!(grid.get(0, 3), None);
    assert_eq!(grid.get(u32::MAX, u32::MAX), None);
}

#[test]
fn from_rows_refuses_a_wrong_shape() {
    assert!(EscapeGrid::from_rows(2, 3, 5, vec![vec![0, 1, 5]]).is_none());
    assert!(EscapeGrid::from_rows(2, 3, 5, vec![vec![0, 1, 5], vec![1, 1]]).is_none());
    assert!(EscapeGrid::from_rows(2, 3, 5, vec![vec![0, 1, 5], vec![1, 1, 3, 4]]).is_none());
    assert!(EscapeGrid::from_rows(3, 2, 5, vec![vec![0, 1, 5], vec![1, 1, 3]]).is_none());
}

#[test]
fn from_rows_refuses_a_value_above_the_cap() {
    assert!(EscapeGrid::from_rows(2, 3, 5, vec![vec![0, 1, 5], vec![1, 6, 3]]).is_none());
    assert!(EscapeGrid::from_rows(1, 1, 0, vec![vec![1]]).is_none());
    assert!(EscapeGrid::from_rows(1, 1, 0, vec![vec![0]]).is_some());
}

#[test]
fn from_rows_accepts_an_empty_grid() {
    let grid = EscapeGrid::from_rows(0, 0, 9, Vec::new()).unwrap();
    assert_eq!(grid.count(0), 0);
    assert_eq!(grid.get(0, 0), None);
}

#[test]
fn from_rows_refuses_what_does_not_fit() {
    assert!(EscapeGrid::from_rows(0x1_0000, 0x1_0000, 9, Vec::new()).is_none());
    assert!(!fits_exec(0x1_0000, 0x1_0000));
    assert!(!fits_exec(u32::MAX, u32::MAX));
    assert!(fits_exec(1024, 768));
    assert!(fits_exec(0, 0));
    assert!(fits_exec(1, 0x5555_5555));
    assert_eq!(fits_exec(0, u32::MAX), 3 * (u32::MAX as u64) <= usize::MAX as u64);
}

#[test]
fn count_counts_exact_matches() {
    let grid = sample();
    assert_eq!(grid.count(0), 1);
    assert_eq!(grid.count(1), 3);
    assert_eq!(grid.count(2), 0);
    assert_eq!(grid.count(3), 1);
    assert_eq!(grid.count(5), 1);
    assert_eq!(grid.count(6), 0);
}

#[test]
fn histogram_is_dense_and_ascending() {
    let grid = sample();
    let h = histogram(&grid, 5);
    assert_eq!(h.bins, vec![0, 1, 2, 3, 4]);
    assert_eq!(h.counts, vec![1, 3, 0, 1, 0]);
}

#[test]
fn histogram_of_no_values_is_empty() {
    let grid = sample();
    let h = histogram(&grid, 0);
    assert!(h.bins.is_empty());
    assert!(h.counts.is_empty());
}

#[test]
fn histogram_totals_account_for_every_cell() {
    let grid = sample();
    let h = histogram(&grid, 5);
    let total: u32 = h.counts.iter().sum();
    // One cell holds the cap itself and has no bin.
    assert_eq!(total + grid.count(5), 2 * 3);
    assert_eq!(total, 5);
}

#[test]
fn histogram_totals_equal_the_cell_count_below_the_cap() {
    let grid = EscapeGrid::from_rows(3, 2, 4, vec![vec![0, 3], vec![2, 2], vec![1, 3]]).unwrap();
    let h = histogram(&grid, 4);
    let total: u32 = h.counts.iter().sum();
    assert_eq!(total, 3 * 2);
    assert_eq!(h.counts, vec![1, 1, 2, 2]);
}

#[test]
fn histogram_may_reach_beyond_the_cap() {
    let grid = sample();
    let h = histogram(&grid, 7);
    assert_eq!(h.bins, vec![0, 1, 2, 3, 4, 5, 6]);
    assert_eq!(h.counts, vec![1, 3, 0, 1, 0, 1, 0]);
}

#[test]
fn merge_puts_each_row_at_its_index() {
    let finished = vec![(2, vec![7, 8]), (0, vec![1, 2]), (1, vec![4, 5])];
    assert_eq!(merge_rows(3, finished), Some(vec![vec![1, 2], vec![4, 5], vec![7, 8]]));
    assert_eq!(merge_rows(0, Vec::new()), Some(Vec::new()));
}

#[test]
fn merge_does_not_depend_on_the_order() {
    let a = vec![(0, vec![1]), (1, vec![2]), (2, vec![3]), (3, vec![4])];
    let b = vec![(3, vec![4]), (1, vec![2]), (0, vec![1]), (2, vec![3])];
    assert_eq!(merge_rows(4, a), merge_rows(4, b));
}

#[test]
fn merge_refuses_missing_and_repeated_rows() {
    assert_eq!(merge_rows(3, vec![(0, vec![1]), (1, vec![2])]), None);
    assert_eq!(merge_rows(2, vec![(0, vec![1]), (0, vec![2])]), None);
    assert_eq!(merge_rows(2, vec![(1, vec![1]), (1, vec![1])]), None);
    assert_eq!(merge_rows(2, vec![(0, vec![1]), (2, vec![2])]), None);
    assert_eq!(merge_rows(1, vec![(0, vec![1]), (1, vec![2])]), None);
    assert_eq!(merge_rows(1, Vec::new()), None);
}

#[test]
fn merge_keeps_rows_of_any_length() {
    assert_eq!(merge_rows(2, vec![(1, vec![]), (0, vec![1, 2, 3])]), Some(vec![vec![1, 2, 3], vec![]]));
}
