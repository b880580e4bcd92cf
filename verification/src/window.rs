//! Windowed subscription geometry: which source cells each destination
//! cell listens to, and the reverse index.

use crate::index_map::{index_map_contents, index_set_contents, list_at, IndexMap, IndexSet};
use vstd::arithmetic::div_mod::{lemma_fundamental_div_mod, lemma_fundamental_div_mod_converse};
use vstd::prelude::*;

verus! {

#[derive(Copy, Clone, Debug, PartialEq, Eq, Structural)]
pub enum Padding {
    Same,
    Valid,
}

/// The parameters a window mapping is computed from.
#[derive(Copy, Clone, Debug, PartialEq, Eq, Structural)]
pub struct WindowGeometry {
    pub source_height: usize,
    pub source_width: usize,
    pub kernel_height: usize,
    pub kernel_width: usize,
    pub stride_height: usize,
    pub stride_width: usize,
    pub padding: Padding,
}

/// Forward and reverse subscription tables of one windowed connection.
#[derive(Debug)]
pub struct WindowMapping {
    pub out_height: usize,
    pub out_width: usize,
    /// For each destination index (row-major), the source indices its window covers.
    pub dest_to_sources: Vec<Vec<usize>>,
    /// For each covered source index, the destination indices that subscribe to it.
    pub source_to_dests: IndexMap,
    pub unique_source_count: usize,
}

/// `input_dim / stride`, rounded up.
pub open spec fn ceil_div(input_dim: int, stride: int) -> int
    recommends
        stride > 0,
{
    if input_dim % stride == 0 {
        input_dim / stride
    } else {
        input_dim / stride + 1
    }
}

/// Number of window positions along one axis.
pub open spec fn out_dim(input_dim: usize, kernel: usize, stride: usize, padding: Padding) -> int {
    match padding {
        Padding::Same => ceil_div(input_dim as int, stride as int),
        Padding::Valid => if input_dim < kernel {
            0
        } else {
            1 + (input_dim - kernel) / (stride as int)
        },
    }
}

/// Whether `stride` is one that [`out_dim`] can divide by.
pub open spec fn stride_ok(input_dim: usize, kernel: usize, stride: usize, padding: Padding) -> bool {
    match padding {
        Padding::Same => stride > 0,
        Padding::Valid => input_dim >= kernel ==> stride > 0,
    }
}

/// Center of the `d`-th window along one axis.
pub open spec fn axis_center(
    input_dim: usize,
    kernel: usize,
    stride: usize,
    padding: Padding,
    d: int,
) -> int {
    match padding {
        Padding::Same => if d * stride > input_dim - 1 {
            input_dim - 1
        } else {
            d * stride
        },
        Padding::Valid => d * stride + kernel / 2,
    }
}

/// First source coordinate of the `d`-th window along one axis.
pub open spec fn axis_start(
    input_dim: usize,
    kernel: usize,
    stride: usize,
    padding: Padding,
    d: int,
) -> int {
    let center = axis_center(input_dim, kernel, stride, padding, d);
    if center - kernel / 2 < 0 {
        0
    } else {
        center - kernel / 2
    }
}

/// Last source coordinate (inclusive) of the `d`-th window along one axis.
pub open spec fn axis_end(
    input_dim: usize,
    kernel: usize,
    stride: usize,
    padding: Padding,
    d: int,
) -> int {
    let center = axis_center(input_dim, kernel, stride, padding, d);
    if center + kernel / 2 > input_dim - 1 {
        input_dim - 1
    } else {
        center + kernel / 2
    }
}

/// The cells of the box `[r0, r1) x [c0, c1)` of a grid `width` wide, as
/// row-major indices in row-major order.
pub open spec fn box_indices(r0: int, r1: int, c0: int, c1: int, width: int) -> Seq<usize> {
    let rows = if r1 > r0 { r1 - r0 } else { 0 };
    let cols = if c1 > c0 { c1 - c0 } else { 0 };
    box_prefix(r0, c0, cols, width, rows * cols)
}

/// The first `count` cells of a box `cols` wide whose first cell is
/// `(r0, c0)`, counted row by row.
pub open spec fn box_prefix(r0: int, c0: int, cols: int, width: int, count: int) -> Seq<usize> {
    Seq::new(count as nat, |i: int| ((r0 + i / cols) * width + c0 + i % cols) as usize)
}

/// For each list of a table, what it holds.
pub open spec fn lists_of(table: Seq<Vec<usize>>) -> Seq<Seq<usize>> {
    Seq::new(table.len(), |d: int| table[d]@)
}

/// The destinations below `upto` whose list in `forward` holds `source`, in
/// ascending order.
pub open spec fn subscribers(forward: Seq<Seq<usize>>, source: usize, upto: int) -> Seq<usize>
    decreases upto,
{
    if upto <= 0 {
        Seq::empty()
    } else if forward[upto - 1].contains(source) {
        subscribers(forward, source, upto - 1).push((upto - 1) as usize)
    } else {
        subscribers(forward, source, upto - 1)
    }
}

/// The sources that some list of `forward` below `upto` holds.
pub open spec fn covered(forward: Seq<Seq<usize>>, upto: int) -> Set<usize> {
    Set::new(|s: usize| exists|d: int| 0 <= d < upto && #[trigger] forward[d].contains(s))
}

impl WindowGeometry {
    pub open spec fn out_height(self) -> int {
        out_dim(self.source_height, self.kernel_height, self.stride_height, self.padding)
    }

    pub open spec fn out_width(self) -> int {
        out_dim(self.source_width, self.kernel_width, self.stride_width, self.padding)
    }

    /// Number of destination cells.
    pub open spec fn dest_count(self) -> int {
        self.out_height() * self.out_width()
    }

    /// What a mapping can be computed for: strides that can be divided by,
    /// and source and destination grids whose sides and cells can be counted.
    pub open spec fn fits(self) -> bool {
        &&& stride_ok(self.source_height, self.kernel_height, self.stride_height, self.padding)
        &&& stride_ok(self.source_width, self.kernel_width, self.stride_width, self.padding)
        &&& self.source_height * self.source_width <= usize::MAX
        &&& self.out_height() <= usize::MAX
        &&& self.out_width() <= usize::MAX
        &&& self.dest_count() <= usize::MAX
    }

    pub open spec fn row_start(self, dest: int) -> int {
        axis_start(
            self.source_height,
            self.kernel_height,
            self.stride_height,
            self.padding,
            dest / self.out_width(),
        )
    }

    /// One past the last source row of the window of `dest`.
    pub open spec fn row_stop(self, dest: int) -> int {
        axis_end(
            self.source_height,
            self.kernel_height,
            self.stride_height,
            self.padding,
            dest / self.out_width(),
        ) + 1
    }

    pub open spec fn col_start(self, dest: int) -> int {
        axis_start(
            self.source_width,
            self.kernel_width,
            self.stride_width,
            self.padding,
            dest % self.out_width(),
        )
    }

    /// One past the last source column of the window of `dest`.
    pub open spec fn col_stop(self, dest: int) -> int {
        axis_end(
            self.source_width,
            self.kernel_width,
            self.stride_width,
            self.padding,
            dest % self.out_width(),
        ) + 1
    }

    /// The source indices that the window of destination `dest` covers, in
    /// row-major order.
    pub open spec fn sources_of(self, dest: int) -> Seq<usize> {
        box_indices(
            self.row_start(dest),
            self.row_stop(dest),
            self.col_start(dest),
            self.col_stop(dest),
            self.source_width as int,
        )
    }

    /// Whether the cell with index `source` lies in the window of `dest`.
    pub open spec fn in_window(self, dest: int, source: usize) -> bool
        recommends
            self.source_width > 0,
    {
        let row = (source as int) / (self.source_width as int);
        let col = (source as int) % (self.source_width as int);
        &&& self.row_start(dest) <= row < self.row_stop(dest)
        &&& self.col_start(dest) <= col < self.col_stop(dest)
    }

    /// The forward table: the window of each destination.
    pub open spec fn forward(self) -> Seq<Seq<usize>> {
        Seq::new(self.dest_count() as nat, |d: int| self.sources_of(d))
    }
}

/// Output size along one axis under `Same` padding: `input_dim / stride`,
/// rounded up.
pub fn output_dim_same(input_dim: usize, stride: usize) -> (out: usize)
    requires
        stride > 0,
    ensures
        out == out_dim(input_dim, 0, stride, Padding::Same),
        out == ceil_div(input_dim as int, stride as int),
        // the least count of strides that reaches `input_dim`
        out * stride >= input_dim,
        out > 0 ==> (out - 1) * stride < input_dim,
{
    let q: usize = input_dim / stride;
    let r: usize = input_dim % stride;
    proof {
        lemma_fundamental_div_mod(input_dim as int, stride as int);
        assert(q * stride + r == input_dim) by (nonlinear_arith)
            requires
                input_dim == stride * q + r,
        ;
        if r != 0 {
            assert(q < usize::MAX) by (nonlinear_arith)
                requires
                    q * stride + r == input_dim,
                    r > 0,
                    stride > 0,
                    q >= 0,
                    input_dim <= usize::MAX,
            ;
            assert((q + 1) * stride >= input_dim && q * stride < input_dim) by (nonlinear_arith)
                requires
                    q * stride + r == input_dim,
                    0 < r < stride,
            ;
        } else {
            assert(q > 0 ==> (q - 1) * stride < input_dim) by (nonlinear_arith)
                requires
                    q * stride == input_dim,
                    stride > 0,
            ;
        }
    }
    if r == 0 {
        q
    } else {
        q + 1
    }
}

/// Output size along one axis under `Valid` padding: the number of whole
/// kernels that fit at the given stride.
pub fn output_dim_valid(input_dim: usize, kernel: usize, stride: usize) -> (out: usize)
    requires
        input_dim >= kernel ==> stride > 0,
        out_dim(input_dim, kernel, stride, Padding::Valid) <= usize::MAX,
    ensures
        out == out_dim(input_dim, kernel, stride, Padding::Valid),
        input_dim < kernel ==> out == 0,
        input_dim >= kernel ==> out == 1 + (input_dim - kernel) / (stride as int),
{
    if input_dim < kernel {
        0
    } else {
        let q: usize = (input_dim - kernel) / stride;
        q + 1
    }
}

/// Window positions start inside the source: below the output size, the
/// stride multiple of a position stays below the input size (`Same`) or
/// leaves room for a whole kernel (`Valid`).
pub proof fn lemma_position_in_source(
    input_dim: usize,
    kernel: usize,
    stride: usize,
    padding: Padding,
    d: int,
)
    requires
        stride_ok(input_dim, kernel, stride, padding),
        0 <= d < out_dim(input_dim, kernel, stride, padding),
    ensures
        stride > 0,
        0 <= d * stride,
        padding == Padding::Same ==> d * stride < input_dim,
        padding == Padding::Valid ==> kernel <= input_dim && d * stride <= input_dim - kernel,
{
    match padding {
        Padding::Same => {
            lemma_fundamental_div_mod(input_dim as int, stride as int);
            let q = input_dim as int / stride as int;
            let r = input_dim as int % stride as int;
            assert(0 <= d * stride < input_dim) by (nonlinear_arith)
                requires
                    input_dim == stride * q + r,
                    0 <= r < stride,
                    0 <= d,
                    r == 0 ==> d < q,
                    r != 0 ==> d <= q,
            ;
        },
        Padding::Valid => {
            lemma_fundamental_div_mod((input_dim - kernel) as int, stride as int);
            let q = (input_dim - kernel) / (stride as int);
            let r = (input_dim - kernel) % (stride as int);
            assert(0 <= d * stride <= input_dim - kernel) by (nonlinear_arith)
                requires
                    input_dim - kernel == stride * q + r,
                    0 <= r < stride,
                    0 <= d <= q,
            ;
        },
    }
}

/// The source coordinates `[start, stop)` of the `d`-th window along one axis.
pub fn axis_span(input_dim: usize, kernel: usize, stride: usize, padding: Padding, d: usize) -> (span: (
    usize,
    usize,
))
    requires
        stride_ok(input_dim, kernel, stride, padding),
        d < out_dim(input_dim, kernel, stride, padding),
    ensures
        span.0 == axis_start(input_dim, kernel, stride, padding, d as int),
        span.1 == axis_end(input_dim, kernel, stride, padding, d as int) + 1,
        span.1 <= input_dim,
{
    proof {
        lemma_position_in_source(input_dim, kernel, stride, padding, d as int);
    }
    let half: usize = kernel / 2;
    let base: usize = d * stride;
    let center: usize = match padding {
        Padding::Same => if base > input_dim - 1 {
            input_dim - 1
        } else {
            base
        },
        Padding::Valid => base + half,
    };
    let start: usize = if center >= half {
        center - half
    } else {
        0
    };
    let stop: usize = if center >= input_dim {
        input_dim
    } else if half >= input_dim - 1 - center {
        input_dim
    } else {
        center + half + 1
    };
    (start, stop)
}

/// Row-major index of the cell `(row, col)` in a grid `width` wide.
pub open spec fn cell_index(row: int, col: int, width: int) -> int {
    row * width + col
}

/// A cell index determines its row and column.
pub proof fn lemma_cell_index_split(row: int, col: int, width: int)
    requires
        0 <= col < width,
    ensures
        cell_index(row, col, width) / width == row,
        cell_index(row, col, width) % width == col,
{
    lemma_fundamental_div_mod_converse(cell_index(row, col, width), width, row, col);
}

/// Cells of a grid have indices below its area.
pub proof fn lemma_cell_index_bound(row: int, col: int, height: int, width: int)
    requires
        0 <= row < height,
        0 <= col < width,
    ensures
        0 <= cell_index(row, col, width) < height * width,
{
    assert(0 <= row * width + col < height * width) by (nonlinear_arith)
        requires
            0 <= row < height,
            0 <= col < width,
    ;
}

/// The `i`-th cell of a box, counted row by row, lies in row `r0 + i / cols`
/// and column `c0 + i % cols`; position `rows_done * cols + cols_done` is
/// the cell `(r0 + rows_done, c0 + cols_done)`.
pub proof fn lemma_box_position(rows_done: int, cols_done: int, cols: int)
    requires
        0 <= rows_done,
        0 <= cols_done < cols,
    ensures
        (rows_done * cols + cols_done) / cols == rows_done,
        (rows_done * cols + cols_done) % cols == cols_done,
        0 <= rows_done * cols + cols_done,
{
    lemma_fundamental_div_mod_converse(rows_done * cols + cols_done, cols, rows_done, cols_done);
    assert(0 <= rows_done * cols) by (nonlinear_arith)
        requires
            0 <= rows_done,
            0 <= cols,
    ;
}

/// What [`box_indices`] holds: exactly the cells of the box, each once.
pub proof fn lemma_box_indices(r0: int, r1: int, c0: int, c1: int, height: int, width: int)
    requires
        0 <= r0,
        r1 <= height,
        0 <= c0,
        c1 <= width,
        height * width <= usize::MAX,
    ensures
        box_indices(r0, r1, c0, c1, width).no_duplicates(),
        forall|s: usize|
            box_indices(r0, r1, c0, c1, width).contains(s) <==> (width > 0 && r0 <= (s as int)
                / width < r1 && c0 <= (s as int) % width < c1),
{
    let b = box_indices(r0, r1, c0, c1, width);
    let rows = if r1 > r0 { r1 - r0 } else { 0 };
    let cols = if c1 > c0 { c1 - c0 } else { 0 };
    assert forall|i: int| 0 <= i < b.len() implies {
        &&& width > 0
        &&& cols > 0
        &&& 0 <= i / cols < rows
        &&& 0 <= i % cols < cols
        &&& b[i] as int == cell_index(r0 + i / cols, c0 + i % cols, width)
        &&& (b[i] as int) / width == r0 + i / cols
        &&& (b[i] as int) % width == c0 + i % cols
    } by {
        assert(cols > 0 && rows > 0) by (nonlinear_arith)
            requires
                0 <= i < rows * cols,
                rows >= 0,
                cols >= 0,
        ;
        lemma_fundamental_div_mod(i, cols);
        assert(0 <= i / cols < rows) by (nonlinear_arith)
            requires
                i == cols * (i / cols) + i % cols,
                0 <= i % cols < cols,
                0 <= i < rows * cols,
                cols > 0,
        ;
        lemma_cell_index_bound(r0 + i / cols, c0 + i % cols, height, width);
        lemma_cell_index_split(r0 + i / cols, c0 + i % cols, width);
    }
    assert forall|i: int, j: int| 0 <= i < b.len() && 0 <= j < b.len() && i != j implies b[i]
        != b[j] by {
        if b[i] == b[j] {
            lemma_fundamental_div_mod(i, cols);
            lemma_fundamental_div_mod(j, cols);
            assert(i / cols == j / cols);
            assert(i % cols == j % cols);
        }
    }
    assert forall|s: usize|
        b.contains(s) <==> (width > 0 && r0 <= (s as int) / width < r1 && c0 <= (s as int)
            % width < c1) by {
        if b.contains(s) {
            let i = choose|i: int| 0 <= i < b.len() && b[i] == s;
            assert(b[i] == s);
        }
        if width > 0 && r0 <= (s as int) / width < r1 && c0 <= (s as int) % width < c1 {
            let row = (s as int) / width;
            let col = (s as int) % width;
            let i = (row - r0) * cols + (col - c0);
            lemma_box_position(row - r0, col - c0, cols);
            assert(i < rows * cols) by (nonlinear_arith)
                requires
                    i == (row - r0) * cols + (col - c0),
                    0 <= row - r0 < rows,
                    0 <= col - c0 < cols,
            ;
            lemma_fundamental_div_mod(s as int, width);
            assert(width * row == row * width) by (nonlinear_arith);
            assert(cell_index(row, col, width) == s);
            assert(0 <= i < b.len());
            assert(b[i] as int == cell_index(r0 + i / cols, c0 + i % cols, width));
            assert(b[i] == s);
        }
    }
}

/// A destination index below the destination count splits into a row below
/// the output height and a column below the output width.
pub proof fn lemma_dest_position(dest: int, out_height: int, out_width: int)
    requires
        0 <= dest < out_height * out_width,
        0 <= out_height,
        0 <= out_width,
    ensures
        out_width > 0,
        0 <= dest / out_width < out_height,
        0 <= dest % out_width < out_width,
{
    assert(out_width > 0) by (nonlinear_arith)
        requires
            0 <= dest < out_height * out_width,
            0 <= out_height,
            0 <= out_width,
    ;
    lemma_fundamental_div_mod(dest, out_width);
    assert(0 <= dest / out_width < out_height) by (nonlinear_arith)
        requires
            dest == out_width * (dest / out_width) + dest % out_width,
            0 <= dest % out_width < out_width,
            0 <= dest < out_height * out_width,
    ;
}

/// Fills `list` with the window of destination `dest` and adds its sources
/// to `seen`.
fn gather_window(
    g: &WindowGeometry,
    out_height: usize,
    out_width: usize,
    dest: usize,
    list: &mut Vec<usize>,
    seen: &mut IndexSet,
)
    requires
        g.fits(),
        out_height == g.out_height(),
        out_width == g.out_width(),
        dest < g.dest_count(),
        old(list)@.len() == 0,
    ensures
        final(list)@ == g.sources_of(dest as int),
        index_set_contents(*final(seen)) == index_set_contents(*old(seen)).union(
            g.sources_of(dest as int).to_set(),
        ),
{
    proof {
        lemma_dest_position(dest as int, out_height as int, out_width as int);
    }
    let dest_row: usize = dest / out_width;
    let dest_col: usize = dest % out_width;
    let (r0, r1) = axis_span(
        g.source_height,
        g.kernel_height,
        g.stride_height,
        g.padding,
        dest_row,
    );
    let (c0, c1) = axis_span(g.source_width, g.kernel_width, g.stride_width, g.padding, dest_col);
    let ghost cols: int = if c1 > c0 { c1 - c0 } else { 0 };
    let ghost rows: int = if r1 > r0 { r1 - r0 } else { 0 };
    let ghost width: int = g.source_width as int;
    let ghost height: int = g.source_height as int;
    let ghost before: Set<usize> = index_set_contents(*seen);
    let mut local_set = IndexSet::new();
    let mut row: usize = r0;
    assert(list@ =~= box_prefix(r0 as int, c0 as int, cols, width, 0));
    assert(list@.to_set() =~= Set::<usize>::empty());
    while row < r1
        invariant
            r1 <= height,
            c1 <= width,
            height * width <= usize::MAX,
            cols == (if c1 > c0 { c1 - c0 } else { 0 }),
            width == g.source_width,
            height == g.source_height,
            r0 <= row,
            row <= r1 || r0 >= r1,
            r0 >= r1 ==> row == r0,
            list@ == box_prefix(r0 as int, c0 as int, cols, width, (row - r0) * cols),
            index_set_contents(local_set) == list@.to_set(),
            index_set_contents(*seen) == before.union(list@.to_set()),
        decreases r1 - row,
    {
        let mut col: usize = c0;
        while col < c1
            invariant
                r0 <= row < r1,
                r1 <= height,
                c1 <= width,
                height * width <= usize::MAX,
                cols == (if c1 > c0 { c1 - c0 } else { 0 }),
                width == g.source_width,
                height == g.source_height,
                c0 <= col,
                col <= c1 || c0 >= c1,
                c0 >= c1 ==> col == c0,
                list@ == box_prefix(
                    r0 as int,
                    c0 as int,
                    cols,
                    width,
                    (row - r0) * cols + (col - c0),
                ),
                index_set_contents(local_set) == list@.to_set(),
                index_set_contents(*seen) == before.union(list@.to_set()),
            decreases c1 - col,
        {
            let ghost k: int = (row - r0) * cols + (col - c0);
            proof {
                lemma_cell_index_bound(row as int, col as int, height, width);
                lemma_box_position(row - r0, col - c0, cols);
            }
            let src_index: usize = row * g.source_width + col;
            let ghost prior: Seq<usize> = list@;
            proof {
                // the cell is new: every earlier cell differs in row or column
                assert forall|i: int| 0 <= i < k implies prior[i] != src_index by {
                    lemma_fundamental_div_mod(i, cols);
                    assert(0 <= i / cols <= row - r0) by (nonlinear_arith)
                        requires
                            i == cols * (i / cols) + i % cols,
                            0 <= i % cols < cols,
                            0 <= i < (row - r0) * cols + (col - c0),
                            0 <= col - c0 < cols,
                            0 <= row - r0,
                    ;
                    lemma_cell_index_bound(r0 + i / cols, c0 + i % cols, height, width);
                    lemma_cell_index_split(r0 + i / cols, c0 + i % cols, width);
                    lemma_cell_index_split(row as int, col as int, width);
                    assert(prior[i] as int == cell_index(r0 + i / cols, c0 + i % cols, width));
                    assert(src_index as int == cell_index(row as int, col as int, width));
                    if prior[i] == src_index {
                        assert(i / cols == row - r0);
                        assert(i % cols == col - c0);
                        assert(i == k) by (nonlinear_arith)
                            requires
                                i == cols * (i / cols) + i % cols,
                                i / cols == row - r0,
                                i % cols == col - c0,
                                k == (row - r0) * cols + (col - c0),
                        ;
                    }
                }
                assert(!prior.to_set().contains(src_index));
            }
            if local_set.insert(src_index) {
                list.push(src_index);
                seen.insert(src_index);
            }
            proof {
                assert(list@ =~= box_prefix(r0 as int, c0 as int, cols, width, k + 1));
                assert(list@.to_set() =~= prior.to_set().insert(src_index)) by {
                    assert forall|s: usize| list@.to_set().contains(s) <==> prior.to_set().insert(
                        src_index,
                    ).contains(s) by {
                        if list@.contains(s) {
                            let i = choose|i: int| 0 <= i < list@.len() && list@[i] == s;
                            if i < prior.len() {
                                assert(prior[i] == s);
                            }
                        }
                        if prior.contains(s) {
                            let i = choose|i: int| 0 <= i < prior.len() && prior[i] == s;
                            assert(list@[i] == s);
                        }
                        if s == src_index {
                            assert(list@[k] == s);
                        }
                    }
                }
                assert(index_set_contents(*seen) =~= before.union(list@.to_set()));
            }
            col = col + 1;
        }
        proof {
            if c0 < c1 {
                assert((row - r0) * cols + (col - c0) == (row + 1 - r0) * cols) by (nonlinear_arith)
                    requires
                        col - c0 == cols,
                ;
            } else {
                assert((row - r0) * cols + (col - c0) == (row + 1 - r0) * cols) by (nonlinear_arith)
                    requires
                        col - c0 == 0,
                        cols == 0,
                ;
            }
        }
        row = row + 1;
    }
    proof {
        assert((row - r0) * cols == rows * cols) by (nonlinear_arith)
            requires
                row - r0 == rows || (rows == 0 && row == r0),
        ;
    }
}

/// Whether `source` stands in `list` before position `upto`.
pub open spec fn holds_before(list: Seq<usize>, upto: int, source: usize) -> bool {
    exists|i: int| 0 <= i < upto && list[i] == source
}

/// Whether `reverse` is the inversion of the first `dests` lists of
/// `forward` and of the first `upto` entries of the next one.
pub open spec fn inverted_upto(
    forward: Seq<Seq<usize>>,
    reverse: Map<usize, Seq<usize>>,
    dests: int,
    upto: int,
) -> bool {
    forall|s: usize|
        #![trigger list_at(reverse, s)]
        #![trigger reverse.contains_key(s)]
        {
            &&& list_at(reverse, s) == if holds_before(forward[dests], upto, s) {
                subscribers(forward, s, dests).push(dests as usize)
            } else {
                subscribers(forward, s, dests)
            }
            &&& reverse.contains_key(s) <==> (covered(forward, dests).contains(s) || holds_before(
                forward[dests],
                upto,
                s,
            ))
        }
}

/// Whether `reverse` is the inversion of `forward`: under each source that
/// some list holds, the destinations whose lists hold it, in ascending
/// order; no other key.
pub open spec fn is_inverse(forward: Seq<Seq<usize>>, reverse: Map<usize, Seq<usize>>) -> bool {
    forall|s: usize|
        #![trigger list_at(reverse, s)]
        #![trigger reverse.contains_key(s)]
        {
            &&& list_at(reverse, s) == subscribers(forward, s, forward.len() as int)
            &&& reverse.contains_key(s) <==> covered(forward, forward.len() as int).contains(s)
        }
}

/// Builds the reverse index of a forward table.
fn invert(table: &Vec<Vec<usize>>) -> (reverse: IndexMap)
    requires
        forall|d: int| 0 <= d < table.len() ==> (#[trigger] table[d])@.no_duplicates(),
    ensures
        is_inverse(lists_of(table@), index_map_contents(reverse)),
{
    let mut reverse = IndexMap::new();
    let ghost forward = lists_of(table@);
    let mut dest: usize = 0;
    while dest < table.len()
        invariant
            dest <= table.len(),
            forward == lists_of(table@),
            forall|d: int| 0 <= d < table.len() ==> (#[trigger] table[d])@.no_duplicates(),
            inverted_upto(forward, index_map_contents(reverse), dest as int, 0),
        decreases table.len() - dest,
    {
        let mut at: usize = 0;
        while at < table[dest].len()
            invariant
                dest < table.len(),
                at <= table[dest as int].len(),
                forward == lists_of(table@),
                table[dest as int]@.no_duplicates(),
                inverted_upto(forward, index_map_contents(reverse), dest as int, at as int),
            decreases table[dest as int].len() - at,
        {
            let source: usize = table[dest][at];
            let ghost before = index_map_contents(reverse);
            reverse.entry_or_default(source).push(dest);
            proof {
                let after = index_map_contents(reverse);
                let list = forward[dest as int];
                assert(list == table[dest as int]@);
                assert(!holds_before(list, at as int, source));
                assert(holds_before(list, at + 1, source)) by {
                    assert(list[at as int] == source);
                }
                assert forall|s: usize|
                    #![trigger list_at(after, s)]
                    #![trigger after.contains_key(s)]
                    {
                        &&& list_at(after, s) == if holds_before(list, at + 1, s) {
                            subscribers(forward, s, dest as int).push(dest)
                        } else {
                            subscribers(forward, s, dest as int)
                        }
                        &&& after.contains_key(s) <==> (covered(forward, dest as int).contains(s)
                            || holds_before(list, at + 1, s))
                    } by {
                    assert(list_at(before, s) == list_at(before, s));
                    assert(before.contains_key(s) == before.contains_key(s));
                    if s != source {
                        if holds_before(list, at + 1, s) {
                            let i = choose|i: int| 0 <= i < at + 1 && list[i] == s;
                            assert(i < at);
                            assert(holds_before(list, at as int, s));
                        }
                        if holds_before(list, at as int, s) {
                            let i = choose|i: int| 0 <= i < at && list[i] == s;
                            assert(holds_before(list, at + 1, s));
                        }
                    }
                }
            }
            at = at + 1;
        }
        proof {
            let m = index_map_contents(reverse);
            let list = forward[dest as int];
            assert forall|s: usize|
                #![trigger list_at(m, s)]
                #![trigger m.contains_key(s)]
                {
                    &&& list_at(m, s) == if holds_before(forward[dest + 1], 0, s) {
                        subscribers(forward, s, dest + 1).push((dest + 1) as usize)
                    } else {
                        subscribers(forward, s, dest + 1)
                    }
                    &&& m.contains_key(s) <==> (covered(forward, dest + 1).contains(s)
                        || holds_before(forward[dest + 1], 0, s))
                } by {
                assert(list_at(m, s) == list_at(m, s));
                assert(m.contains_key(s) == m.contains_key(s));
                assert(holds_before(list, list.len() as int, s) <==> list.contains(s));
                if covered(forward, dest + 1).contains(s) {
                    let d = choose|d: int| 0 <= d < dest + 1 && #[trigger] forward[d].contains(s);
                    if d < dest {
                        assert(covered(forward, dest as int).contains(s));
                    }
                }
                if covered(forward, dest as int).contains(s) {
                    let d = choose|d: int| 0 <= d < dest && #[trigger] forward[d].contains(s);
                    assert(forward[d].contains(s));
                }
                if list.contains(s) {
                    assert(forward[dest as int].contains(s));
                }
            }
        }
        dest = dest + 1;
    }
    reverse
}

impl WindowMapping {
    /// The forward table: for each destination, the sources it listens to.
    pub open spec fn forward(&self) -> Seq<Seq<usize>> {
        lists_of(self.dest_to_sources@)
    }

    /// The reverse table: for each covered source, its subscribers.
    pub open spec fn reverse(&self) -> Map<usize, Seq<usize>> {
        index_map_contents(self.source_to_dests)
    }

    /// Whether the two tables say the same: `s` stands in the list of
    /// destination `d` exactly when `d` stands in the list of source `s`.
    pub open spec fn symmetric(&self) -> bool {
        &&& forall|d: int, s: usize|
            0 <= d < self.forward().len() && #[trigger] self.forward()[d].contains(s)
                ==> list_at(self.reverse(), s).contains(d as usize)
        &&& forall|s: usize, d: usize| #[trigger]
            list_at(self.reverse(), s).contains(d) ==> d < self.forward().len()
                && self.forward()[d as int].contains(s)
    }

    /// Whether no destination lists a source twice.
    pub open spec fn sources_unique(&self) -> bool {
        forall|d: int| 0 <= d < self.forward().len() ==> (#[trigger] self.forward()[d]).no_duplicates()
    }

    /// Whether no source lists a destination twice.
    pub open spec fn dests_unique(&self) -> bool {
        forall|s: usize| (#[trigger] list_at(self.reverse(), s)).no_duplicates()
    }

    /// The invariant of a mapping: one forward list per destination cell,
    /// tables that mirror each other, and no entry twice.
    pub open spec fn wf(&self) -> bool {
        &&& self.dest_to_sources@.len() == self.out_height * self.out_width
        &&& self.symmetric()
        &&& self.sources_unique()
        &&& self.dests_unique()
    }

    /// Whether this is the mapping that the center rule gives for `g`.
    pub open spec fn is_mapping_of(&self, g: WindowGeometry) -> bool {
        &&& self.out_height == g.out_height()
        &&& self.out_width == g.out_width()
        &&& self.forward() == g.forward()
        &&& is_inverse(g.forward(), self.reverse())
        &&& self.unique_source_count == covered(g.forward(), g.dest_count()).len()
    }

    /// The destinations that subscribe to `source`, if any does.
    pub fn dests_of(&self, source: usize) -> (found: Option<&Vec<usize>>)
        ensures
            found.is_some() == self.reverse().contains_key(source),
            found.is_some() ==> found.unwrap()@ == self.reverse()[source],
    {
        self.source_to_dests.get(source)
    }
}

/// The geometry that seven parameters describe.
pub open spec fn geometry_of(
    source_height: usize,
    source_width: usize,
    kernel_height: usize,
    kernel_width: usize,
    stride_height: usize,
    stride_width: usize,
    padding: Padding,
) -> WindowGeometry {
    WindowGeometry {
        source_height,
        source_width,
        kernel_height,
        kernel_width,
        stride_height,
        stride_width,
        padding,
    }
}

/// Computes the subscription tables of a windowed connection by the center
/// rule.
pub fn compute_window_mapping(
    source_height: usize,
    source_width: usize,
    kernel_height: usize,
    kernel_width: usize,
    stride_height: usize,
    stride_width: usize,
    padding: Padding,
) -> (mapping: WindowMapping)
    requires
        geometry_of(
            source_height,
            source_width,
            kernel_height,
            kernel_width,
            stride_height,
            stride_width,
            padding,
        ).fits(),
    ensures
        mapping.is_mapping_of(
            geometry_of(
                source_height,
                source_width,
                kernel_height,
                kernel_width,
                stride_height,
                stride_width,
                padding,
            ),
        ),
        mapping.wf(),
{
    let g = WindowGeometry {
        source_height,
        source_width,
        kernel_height,
        kernel_width,
        stride_height,
        stride_width,
        padding,
    };
    let (out_h, out_w) = match padding {
        Padding::Same => (
            output_dim_same(source_height, stride_height),
            output_dim_same(source_width, stride_width),
        ),
        Padding::Valid => (
            output_dim_valid(source_height, kernel_height, stride_height),
            output_dim_valid(source_width, kernel_width, stride_width),
        ),
    };
    let dest_count: usize = out_h * out_w;
    let mut dest_to_sources: Vec<Vec<usize>> = Vec::new();
    let mut union_sources = IndexSet::new();
    let mut dest_index: usize = 0;
    proof {
        assert(index_set_contents(union_sources) =~= covered(g.forward(), 0));
    }
    while dest_index < dest_count
        invariant
            g.fits(),
            out_h == g.out_height(),
            out_w == g.out_width(),
            dest_count == g.dest_count(),
            dest_index <= dest_count,
            dest_to_sources@.len() == dest_index,
            forall|d: int|
                0 <= d < dest_index ==> (#[trigger] dest_to_sources@[d])@ == g.sources_of(d),
            index_set_contents(union_sources).finite(),
            index_set_contents(union_sources) == covered(g.forward(), dest_index as int),
        decreases dest_count - dest_index,
    {
        let mut list: Vec<usize> = Vec::new();
        let ghost before = index_set_contents(union_sources);
        gather_window(&g, out_h, out_w, dest_index, &mut list, &mut union_sources);
        dest_to_sources.push(list);
        proof {
            let window = g.sources_of(dest_index as int);
            vstd::seq_lib::seq_to_set_is_finite(window);
            vstd::set::axiom_set_union_finite(before, window.to_set());
            assert(g.forward()[dest_index as int] == window);
            assert(index_set_contents(union_sources) =~= covered(g.forward(), dest_index + 1)) by {
                assert forall|s: usize|
                    before.union(window.to_set()).contains(s) <==> covered(
                        g.forward(),
                        dest_index + 1,
                    ).contains(s) by {
                    if covered(g.forward(), dest_index + 1).contains(s) {
                        let d = choose|d: int|
                            0 <= d < dest_index + 1 && #[trigger] g.forward()[d].contains(s);
                        if d < dest_index {
                            assert(covered(g.forward(), dest_index as int).contains(s));
                        }
                    }
                    if before.contains(s) {
                        let d = choose|d: int|
                            0 <= d < dest_index && #[trigger] g.forward()[d].contains(s);
                        assert(g.forward()[d].contains(s));
                    }
                    if window.contains(s) {
                        assert(g.forward()[dest_index as int].contains(s));
                    }
                }
            }
        }
        dest_index = dest_index + 1;
    }
    proof {
        assert(lists_of(dest_to_sources@) =~= g.forward());
        assert forall|d: int| 0 <= d < dest_to_sources.len() implies (
        #[trigger] dest_to_sources[d])@.no_duplicates() by {
            lemma_window_in_source(g, d);
        }
    }
    let source_to_dests = invert(&dest_to_sources);
    let unique_source_count: usize = union_sources.len();
    let mapping = WindowMapping {
        out_height: out_h,
        out_width: out_w,
        dest_to_sources,
        source_to_dests,
        unique_source_count,
    };
    proof {
        lemma_computed_mapping_wf(mapping, g);
    }
    mapping
}

/// The window of a destination is a box inside the source grid: it lists
/// each of its cells once, and exactly the cells that pass the box test.
pub proof fn lemma_window_in_source(g: WindowGeometry, dest: int)
    requires
        g.fits(),
        0 <= dest < g.dest_count(),
    ensures
        g.sources_of(dest).no_duplicates(),
        0 <= g.row_start(dest),
        g.row_stop(dest) <= g.source_height,
        0 <= g.col_start(dest),
        g.col_stop(dest) <= g.source_width,
        forall|s: usize|
            g.sources_of(dest).contains(s) <==> (g.source_width > 0 && g.in_window(dest, s)),
{
    lemma_dest_position(dest, g.out_height(), g.out_width());
    lemma_box_indices(
        g.row_start(dest),
        g.row_stop(dest),
        g.col_start(dest),
        g.col_stop(dest),
        g.source_height as int,
        g.source_width as int,
    );
}

/// The subscribers of a source are the destinations whose lists hold it,
/// each once and in ascending order.
pub proof fn lemma_subscribers(forward: Seq<Seq<usize>>, source: usize, upto: int)
    requires
        0 <= upto <= forward.len(),
        upto <= usize::MAX + 1,
    ensures
        forall|d: int|
            #![trigger subscribers(forward, source, upto).contains(d as usize)]
            0 <= d <= usize::MAX ==> (subscribers(forward, source, upto).contains(d as usize)
                <==> (d < upto && forward[d].contains(source))),
        forall|i: int, j: int|
            0 <= i < j < subscribers(forward, source, upto).len() ==> subscribers(
                forward,
                source,
                upto,
            )[i] < subscribers(forward, source, upto)[j],
        forall|i: int|
            0 <= i < subscribers(forward, source, upto).len() ==> subscribers(
                forward,
                source,
                upto,
            )[i] < upto,
        subscribers(forward, source, upto).no_duplicates(),
    decreases upto,
{
    if upto > 0 {
        lemma_subscribers(forward, source, upto - 1);
        let prev = subscribers(forward, source, upto - 1);
        let cur = subscribers(forward, source, upto);
        if forward[upto - 1].contains(source) {
            assert(cur == prev.push((upto - 1) as usize));
            assert forall|d: int|
                #![trigger cur.contains(d as usize)]
                0 <= d <= usize::MAX implies (cur.contains(d as usize) <==> (d < upto
                && forward[d].contains(source))) by {
                if cur.contains(d as usize) {
                    let i = choose|i: int| 0 <= i < cur.len() && cur[i] == d as usize;
                    if i < prev.len() {
                        assert(prev[i] == d as usize);
                        assert(prev.contains(d as usize));
                    }
                }
                if d < upto && forward[d].contains(source) {
                    if d == upto - 1 {
                        assert(cur[prev.len() as int] == d as usize);
                    } else {
                        assert(prev.contains(d as usize));
                        let i = choose|i: int| 0 <= i < prev.len() && prev[i] == d as usize;
                        assert(cur[i] == d as usize);
                    }
                }
            }
        } else {
            assert(cur == prev);
        }
    }
}

/// What the center rule computes is well formed: its two tables mirror
/// each other and hold no entry twice.
pub proof fn lemma_computed_mapping_wf(mapping: WindowMapping, g: WindowGeometry)
    requires
        g.fits(),
        mapping.is_mapping_of(g),
    ensures
        mapping.wf(),
{
    let forward = mapping.forward();
    let reverse = mapping.reverse();
    let n = forward.len() as int;
    assert(n == g.dest_count());
    assert(mapping.dest_to_sources@.len() == n);
    assert forall|d: int| 0 <= d < n implies (#[trigger] forward[d]).no_duplicates() by {
        lemma_window_in_source(g, d);
    }
    assert forall|s: usize| (#[trigger] list_at(reverse, s)).no_duplicates() by {
        lemma_subscribers(forward, s, n);
    }
    assert forall|d: int, s: usize|
        0 <= d < n && #[trigger] forward[d].contains(s) implies list_at(reverse, s).contains(
        d as usize,
    ) by {
        lemma_subscribers(forward, s, n);
        assert(list_at(reverse, s) == subscribers(forward, s, n));
        assert(subscribers(forward, s, n).contains(d as usize));
    }
    assert forall|s: usize, d: usize| #[trigger]
        list_at(reverse, s).contains(d) implies d < n && forward[d as int].contains(s) by {
        lemma_subscribers(forward, s, n);
        assert(list_at(reverse, s) == subscribers(forward, s, n));
        assert(subscribers(forward, s, n).contains((d as int) as usize));
    }
}

/// The indices below `bound`.
pub open spec fn indices_below(bound: int) -> Set<usize> {
    Set::new(|s: usize| s < bound)
}

/// There are `bound` indices below `bound`.
pub proof fn lemma_indices_below(bound: int)
    requires
        0 <= bound <= usize::MAX,
    ensures
        indices_below(bound).finite(),
        indices_below(bound).len() == bound,
    decreases bound,
{
    if bound == 0 {
        assert(indices_below(bound) =~= Set::<usize>::empty());
    } else {
        lemma_indices_below(bound - 1);
        assert(indices_below(bound) =~= indices_below(bound - 1).insert((bound - 1) as usize));
    }
}

/// Every source that a window covers is a cell of the source grid, so a
/// mapping covers at most as many distinct sources as the grid has cells.
pub proof fn lemma_covered_in_source(g: WindowGeometry)
    requires
        g.fits(),
    ensures
        forall|s: usize|
            covered(g.forward(), g.dest_count()).contains(s) ==> s < g.source_height
                * g.source_width,
        covered(g.forward(), g.dest_count()).finite(),
        covered(g.forward(), g.dest_count()).len() <= g.source_height * g.source_width,
{
    let all = covered(g.forward(), g.dest_count());
    let cells = g.source_height * g.source_width;
    assert forall|s: usize| all.contains(s) implies s < cells by {
        let d = choose|d: int| 0 <= d < g.dest_count() && #[trigger] g.forward()[d].contains(s);
        lemma_window_in_source(g, d);
        assert(g.sources_of(d).contains(s));
        assert(g.in_window(d, s));
        let width = g.source_width as int;
        let row = (s as int) / width;
        let col = (s as int) % width;
        lemma_fundamental_div_mod(s as int, width);
        assert(width * row == row * width) by (nonlinear_arith);
        lemma_cell_index_bound(row, col, g.source_height as int, width);
    }
    lemma_indices_below(cells);
    assert(all.subset_of(indices_below(cells)));
    vstd::set_lib::lemma_len_subset(all, indices_below(cells));
}

/// Along one axis there are no more window positions than source
/// coordinates, given a stride of at least one and, under `Valid`
/// padding, a kernel of at least one.
pub proof fn lemma_out_dim_bound(input_dim: usize, kernel: usize, stride: usize, padding: Padding)
    requires
        stride > 0,
        padding == Padding::Valid ==> kernel > 0,
    ensures
        0 <= out_dim(input_dim, kernel, stride, padding) <= input_dim,
{
    match padding {
        Padding::Same => {
            lemma_fundamental_div_mod(input_dim as int, stride as int);
            let q = input_dim as int / stride as int;
            let r = input_dim as int % stride as int;
            assert(0 <= q && (r != 0 ==> q + 1 <= input_dim) && q <= input_dim)
                by (nonlinear_arith)
                requires
                    input_dim == stride * q + r,
                    0 <= r < stride,
                    0 <= input_dim,
            ;
        },
        Padding::Valid => {
            if input_dim >= kernel {
                let rest = (input_dim - kernel) as int;
                lemma_fundamental_div_mod(rest, stride as int);
                let q = rest / stride as int;
                let r = rest % stride as int;
                assert(0 <= q <= rest) by (nonlinear_arith)
                    requires
                        rest == stride * q + r,
                        0 <= r < stride,
                        0 <= rest,
                ;
            }
        },
    }
}

/// A mapping can be computed for every source grid whose cells can be
/// counted, at strides of at least one and, under `Valid` padding, with
/// kernels of at least one: the destination grid is then no larger than
/// the source grid.
pub proof fn lemma_geometry_fits(
    source_height: usize,
    source_width: usize,
    kernel_height: usize,
    kernel_width: usize,
    stride_height: usize,
    stride_width: usize,
    padding: Padding,
)
    requires
        stride_height > 0,
        stride_width > 0,
        padding == Padding::Valid ==> kernel_height > 0 && kernel_width > 0,
        source_height * source_width <= usize::MAX,
    ensures
        geometry_of(
            source_height,
            source_width,
            kernel_height,
            kernel_width,
            stride_height,
            stride_width,
            padding,
        ).fits(),
        out_dim(source_height, kernel_height, stride_height, padding) <= source_height,
        out_dim(source_width, kernel_width, stride_width, padding) <= source_width,
{
    lemma_out_dim_bound(source_height, kernel_height, stride_height, padding);
    lemma_out_dim_bound(source_width, kernel_width, stride_width, padding);
    let out_height = out_dim(source_height, kernel_height, stride_height, padding);
    let out_width = out_dim(source_width, kernel_width, stride_width, padding);
    assert(out_height * out_width <= source_height * source_width) by (nonlinear_arith)
        requires
            0 <= out_height <= source_height,
            0 <= out_width <= source_width,
    ;
}

} // verus!
