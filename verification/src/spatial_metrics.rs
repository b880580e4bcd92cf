//! Frame-level summary: active cells, their bounding box and centroid.

use crate::fixed::lemma_product_fits;
use crate::window::{cell_index, lemma_cell_index_bound, lemma_cell_index_split};
use vstd::prelude::*;

verus! {

/// Summary of the active (nonzero) cells of a frame. The centroid is kept
/// exact: its row is `row_sum / active_count` and its column is
/// `col_sum / active_count`. Every field is zero when no cell is active.
#[derive(Copy, Clone, Debug, PartialEq, Eq, Structural)]
pub struct SpatialMetrics {
    pub min_row: usize,
    pub max_row: usize,
    pub min_col: usize,
    pub max_col: usize,
    pub row_sum: u128,
    pub col_sum: u128,
    pub active_count: usize,
}

/// Number of nonzero cells among the first `upto` cells of `frame`.
pub open spec fn count_active(frame: Seq<u64>, upto: int) -> int
    decreases upto,
{
    if upto <= 0 {
        0
    } else {
        count_active(frame, upto - 1) + if frame[upto - 1] != 0 {
            1int
        } else {
            0int
        }
    }
}

/// Sum of the rows of the nonzero cells among the first `upto` cells.
pub open spec fn sum_active_rows(frame: Seq<u64>, width: int, upto: int) -> int
    decreases upto,
{
    if upto <= 0 {
        0
    } else {
        sum_active_rows(frame, width, upto - 1) + if frame[upto - 1] != 0 {
            (upto - 1) / width
        } else {
            0
        }
    }
}

/// Sum of the columns of the nonzero cells among the first `upto` cells.
pub open spec fn sum_active_cols(frame: Seq<u64>, width: int, upto: int) -> int
    decreases upto,
{
    if upto <= 0 {
        0
    } else {
        sum_active_cols(frame, width, upto - 1) + if frame[upto - 1] != 0 {
            (upto - 1) % width
        } else {
            0
        }
    }
}

/// Whether the box holds every nonzero cell among the first `upto`.
pub open spec fn box_holds_active(m: SpatialMetrics, frame: Seq<u64>, width: int, upto: int) -> bool {
    forall|i: int|
        0 <= i < upto && #[trigger] frame[i] != 0 ==> m.min_row <= i / width <= m.max_row
            && m.min_col <= i % width <= m.max_col
}

/// Whether each side of the box is touched by a nonzero cell among the
/// first `upto`.
pub open spec fn box_is_tight(m: SpatialMetrics, frame: Seq<u64>, width: int, upto: int) -> bool {
    &&& exists|i: int| 0 <= i < upto && #[trigger] frame[i] != 0 && i / width == m.min_row
    &&& exists|i: int| 0 <= i < upto && #[trigger] frame[i] != 0 && i / width == m.max_row
    &&& exists|i: int| 0 <= i < upto && #[trigger] frame[i] != 0 && i % width == m.min_col
    &&& exists|i: int| 0 <= i < upto && #[trigger] frame[i] != 0 && i % width == m.max_col
}

impl SpatialMetrics {
    /// The summary of a frame without an active cell.
    pub open spec fn zero() -> SpatialMetrics {
        SpatialMetrics {
            min_row: 0,
            max_row: 0,
            min_col: 0,
            max_col: 0,
            row_sum: 0,
            col_sum: 0,
            active_count: 0,
        }
    }

    /// Whether this is the summary of the `height` by `width` frame held
    /// row-major in `frame`: the count of its nonzero cells, their tight
    /// bounding box, and the sums of their rows and columns.
    pub open spec fn is_summary_of(self, frame: Seq<u64>, height: int, width: int) -> bool {
        let cells = height * width;
        &&& self.active_count == count_active(frame, cells)
        &&& self.active_count == 0 ==> self == SpatialMetrics::zero()
        &&& self.active_count > 0 ==> {
            &&& self.row_sum == sum_active_rows(frame, width, cells)
            &&& self.col_sum == sum_active_cols(frame, width, cells)
            &&& box_holds_active(self, frame, width, cells)
            &&& box_is_tight(self, frame, width, cells)
        }
    }
}

impl Default for SpatialMetrics {
    fn default() -> (m: Self)
        ensures
            m == SpatialMetrics::zero(),
    {
        SpatialMetrics {
            min_row: 0,
            max_row: 0,
            min_col: 0,
            max_col: 0,
            row_sum: 0,
            col_sum: 0,
            active_count: 0,
        }
    }
}

/// Counts and sums over a prefix are bounded by the prefix: at most one
/// per cell, and each row below `height`, each column below `width`.
pub proof fn lemma_active_bounds(frame: Seq<u64>, height: int, width: int, upto: int)
    requires
        0 <= upto <= height * width,
        0 < width,
    ensures
        0 <= count_active(frame, upto) <= upto,
        0 <= sum_active_rows(frame, width, upto) <= upto * height,
        0 <= sum_active_cols(frame, width, upto) <= upto * width,
    decreases upto,
{
    if upto > 0 {
        lemma_active_bounds(frame, height, width, upto - 1);
        let i = upto - 1;
        vstd::arithmetic::div_mod::lemma_fundamental_div_mod(i, width);
        assert(0 <= i / width < height) by (nonlinear_arith)
            requires
                i == width * (i / width) + i % width,
                0 <= i % width < width,
                0 <= i < height * width,
        ;
        assert((upto - 1) * height + height == upto * height) by (nonlinear_arith);
        assert((upto - 1) * width + width == upto * width) by (nonlinear_arith);
    } else {
        assert(upto * height == 0 && upto * width == 0) by (nonlinear_arith)
            requires
                upto == 0,
        ;
    }
}

/// The nonzero cells among the first `upto` cells of `frame`.
pub open spec fn active_cells(frame: Seq<u64>, upto: int) -> Set<int> {
    Set::new(|i: int| 0 <= i < upto && frame[i] != 0)
}

/// The active count is the number of nonzero cells: cells are counted,
/// not weighed by their values.
pub proof fn lemma_count_is_cardinality(frame: Seq<u64>, upto: int)
    requires
        0 <= upto,
    ensures
        active_cells(frame, upto).finite(),
        active_cells(frame, upto).len() == count_active(frame, upto),
    decreases upto,
{
    if upto == 0 {
        assert(active_cells(frame, upto) =~= Set::<int>::empty());
    } else {
        lemma_count_is_cardinality(frame, upto - 1);
        if frame[upto - 1] != 0 {
            assert(active_cells(frame, upto) =~= active_cells(frame, upto - 1).insert(upto - 1));
        } else {
            assert(active_cells(frame, upto) =~= active_cells(frame, upto - 1));
        }
    }
}

/// Summarises the active cells of a dense `height` by `width` frame.
pub fn compute_spatial_metrics_from_frame(frame: &[u64], height: usize, width: usize) -> (metrics:
    SpatialMetrics)
    requires
        height * width <= frame@.len(),
    ensures
        metrics.is_summary_of(frame@, height as int, width as int),
{
    let mut sum_row: u128 = 0;
    let mut sum_col: u128 = 0;
    let mut min_row: usize = usize::MAX;
    let mut min_col: usize = usize::MAX;
    let mut max_row: usize = 0;
    let mut max_col: usize = 0;
    let mut active_count: usize = 0;
    let ghost cells: int = height * width;
    let available: usize = frame.len();
    let mut row: usize = 0;
    proof {
        assert(0 * width == 0) by (nonlinear_arith);
    }
    while row < height
        invariant
            row <= height,
            cells == height * width,
            available == frame@.len(),
            cells <= available,
            active_count == count_active(frame@, row * width),
            sum_row == sum_active_rows(frame@, width as int, row * width),
            sum_col == sum_active_cols(frame@, width as int, row * width),
            active_count == 0 ==> min_row == usize::MAX && min_col == usize::MAX && max_row == 0
                && max_col == 0,
            box_holds_active(
                SpatialMetrics {
                    min_row,
                    max_row,
                    min_col,
                    max_col,
                    row_sum: sum_row,
                    col_sum: sum_col,
                    active_count,
                },
                frame@,
                width as int,
                row * width,
            ),
            active_count > 0 ==> box_is_tight(
                SpatialMetrics {
                    min_row,
                    max_row,
                    min_col,
                    max_col,
                    row_sum: sum_row,
                    col_sum: sum_col,
                    active_count,
                },
                frame@,
                width as int,
                row * width,
            ),
        decreases height - row,
    {
        let mut col: usize = 0;
        while col < width
            invariant
                row < height,
                col <= width,
                cells == height * width,
                available == frame@.len(),
                cells <= available,
                active_count == count_active(frame@, row * width + col),
                sum_row == sum_active_rows(frame@, width as int, row * width + col),
                sum_col == sum_active_cols(frame@, width as int, row * width + col),
                active_count == 0 ==> min_row == usize::MAX && min_col == usize::MAX && max_row
                    == 0 && max_col == 0,
                box_holds_active(
                    SpatialMetrics {
                        min_row,
                        max_row,
                        min_col,
                        max_col,
                        row_sum: sum_row,
                        col_sum: sum_col,
                        active_count,
                    },
                    frame@,
                    width as int,
                    row * width + col,
                ),
                active_count > 0 ==> box_is_tight(
                    SpatialMetrics {
                        min_row,
                        max_row,
                        min_col,
                        max_col,
                        row_sum: sum_row,
                        col_sum: sum_col,
                        active_count,
                    },
                    frame@,
                    width as int,
                    row * width + col,
                ),
            decreases width - col,
        {
            let ghost k: int = row * width + col;
            proof {
                lemma_cell_index_bound(row as int, col as int, height as int, width as int);
                lemma_cell_index_split(row as int, col as int, width as int);
                assert(k == cell_index(row as int, col as int, width as int));
                lemma_active_bounds(frame@, height as int, width as int, k);
                lemma_product_fits(k, height as int);
                lemma_product_fits(k, width as int);
            }
            let ghost old_box = SpatialMetrics {
                min_row,
                max_row,
                min_col,
                max_col,
                row_sum: sum_row,
                col_sum: sum_col,
                active_count,
            };
            let value: u64 = frame[row * width + col];
            if value != 0 {
                active_count = active_count + 1;
                sum_row = sum_row + row as u128;
                sum_col = sum_col + col as u128;
                if row < min_row {
                    min_row = row;
                }
                if col < min_col {
                    min_col = col;
                }
                if row > max_row {
                    max_row = row;
                }
                if col > max_col {
                    max_col = col;
                }
            }
            proof {
                let new_box = SpatialMetrics {
                    min_row,
                    max_row,
                    min_col,
                    max_col,
                    row_sum: sum_row,
                    col_sum: sum_col,
                    active_count,
                };
                assert(box_holds_active(new_box, frame@, width as int, k + 1)) by {
                    assert forall|i: int| 0 <= i < k + 1 && #[trigger] frame@[i] != 0 implies 
                        new_box.min_row <= i / (width as int) <= new_box.max_row
                        && new_box.min_col <= i % (width as int) <= new_box.max_col by {
                        if i < k {
                            assert(old_box.min_row <= i / (width as int) <= old_box.max_row);
                        }
                    }
                }
                if active_count > 0 {
                    if value != 0 {
                        if old_box.active_count > 0 {
                            let a = choose|i: int|
                                0 <= i < k && #[trigger] frame@[i] != 0 && i / (width as int)
                                    == old_box.min_row;
                            let b = choose|i: int|
                                0 <= i < k && #[trigger] frame@[i] != 0 && i / (width as int)
                                    == old_box.max_row;
                            let c = choose|i: int|
                                0 <= i < k && #[trigger] frame@[i] != 0 && i % (width as int)
                                    == old_box.min_col;
                            let d = choose|i: int|
                                0 <= i < k && #[trigger] frame@[i] != 0 && i % (width as int)
                                    == old_box.max_col;
                            let wa = if row < old_box.min_row { k } else { a };
                            let wb = if row > old_box.max_row { k } else { b };
                            let wc = if col < old_box.min_col { k } else { c };
                            let wd = if col > old_box.max_col { k } else { d };
                            assert(frame@[wa] != 0 && wa / (width as int) == new_box.min_row);
                            assert(frame@[wb] != 0 && wb / (width as int) == new_box.max_row);
                            assert(frame@[wc] != 0 && wc % (width as int) == new_box.min_col);
                            assert(frame@[wd] != 0 && wd % (width as int) == new_box.max_col);
                        } else {
                            assert(frame@[k] != 0 && k / (width as int) == new_box.min_row);
                            assert(frame@[k] != 0 && k / (width as int) == new_box.max_row);
                            assert(frame@[k] != 0 && k % (width as int) == new_box.min_col);
                            assert(frame@[k] != 0 && k % (width as int) == new_box.max_col);
                        }
                    } else {
                        let a = choose|i: int|
                            0 <= i < k && #[trigger] frame@[i] != 0 && i / (width as int)
                                == old_box.min_row;
                        let b = choose|i: int|
                            0 <= i < k && #[trigger] frame@[i] != 0 && i / (width as int)
                                == old_box.max_row;
                        let c = choose|i: int|
                            0 <= i < k && #[trigger] frame@[i] != 0 && i % (width as int)
                                == old_box.min_col;
                        let d = choose|i: int|
                            0 <= i < k && #[trigger] frame@[i] != 0 && i % (width as int)
                                == old_box.max_col;
                        assert(frame@[a] != 0 && frame@[b] != 0 && frame@[c] != 0 && frame@[d] != 0);
                    }
                }
            }
            col = col + 1;
        }
        proof {
            assert(row * width + width == (row + 1) * width) by (nonlinear_arith);
        }
        row = row + 1;
    }
    if active_count == 0 {
        return SpatialMetrics::default();
    }
    SpatialMetrics {
        min_row,
        max_row,
        min_col,
        max_col,
        row_sum: sum_row,
        col_sum: sum_col,
        active_count,
    }
}

} // verus!
