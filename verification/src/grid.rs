//! Row-major pixel grids: cells, rectangles, and copying runs of rows.

use vstd::prelude::*;

verus! {

/// The element in column `col` of row `row` of a grid whose rows are `stride`
/// elements apart.
pub open spec fn cell<T>(grid: Seq<T>, stride: int, row: int, col: int) -> T {
    grid[row * stride + col]
}

/// Whether the pixel `(x, y)` lies in the rectangle of size `w` x `h` whose
/// first pixel is `(left, top)`.
pub open spec fn in_rect(x: int, y: int, left: int, top: int, w: int, h: int) -> bool {
    left <= x < left + w && top <= y < top + h
}

/// A cell of a grid of `rows` rows lies inside the grid.
pub proof fn lemma_cell_index(row: int, col: int, rows: int, stride: int)
    requires
        0 <= row < rows,
        0 <= col < stride,
    ensures
        0 <= row * stride + col < rows * stride,
        row * stride + stride <= rows * stride,
{
    assert(row * stride + stride <= rows * stride) by (nonlinear_arith)
        requires
            0 <= row < rows,
            0 <= stride,
    ;
    assert(0 <= row * stride) by (nonlinear_arith)
        requires
            0 <= row,
            0 <= stride,
    ;
}

/// Two cells of a grid share an index only where row and column agree.
pub proof fn lemma_cell_unique(row_a: int, col_a: int, row_b: int, col_b: int, stride: int)
    requires
        0 <= col_a < stride,
        0 <= col_b < stride,
        row_a * stride + col_a == row_b * stride + col_b,
    ensures
        row_a == row_b,
        col_a == col_b,
{
    assert(row_a == row_b) by (nonlinear_arith)
        requires
            0 <= col_a < stride,
            0 <= col_b < stride,
            row_a * stride + col_a == row_b * stride + col_b,
    ;
}

/// Every index of a grid is a cell of it.
pub proof fn lemma_index_cell(index: int, rows: int, stride: int)
    requires
        0 <= index < rows * stride,
        0 < stride,
    ensures
        0 <= index / stride < rows,
        0 <= index % stride < stride,
        (index / stride) * stride + index % stride == index,
{
    vstd::arithmetic::div_mod::lemma_fundamental_div_mod(index, stride);
    assert(stride * (index / stride) == (index / stride) * stride) by (nonlinear_arith);
    assert(index / stride < rows) by (nonlinear_arith)
        requires
            index < rows * stride,
            0 < stride,
            (index / stride) * stride <= index,
    ;
    assert(0 <= index / stride) by (nonlinear_arith)
        requires
            0 <= index,
            0 < stride,
    ;
}

/// Appends `src[start..end]` to `out`.
pub fn append_run<T: Copy>(out: &mut Vec<T>, src: &[T], start: usize, end: usize)
    requires
        start <= end <= src@.len(),
    ensures
        final(out)@ == old(out)@ + src@.subrange(start as int, end as int),
{
    let mut i: usize = start;
    while i < end
        invariant
            start <= i <= end <= src@.len(),
            out@ == old(out)@ + src@.subrange(start as int, i as int),
        decreases end - i,
    {
        out.push(src[i]);
        i = i + 1;
    }
}

/// Copies `rows` runs of `len` elements out of `src`; run `r` begins at
/// `first + r * step`.
pub fn gather_rows<T: Copy>(src: &[T], first: usize, step: usize, rows: usize, len: usize) -> (out:
    Vec<T>)
    requires
        rows > 0 ==> first + (rows - 1) * step + len <= src@.len(),
        rows * len <= usize::MAX,
    ensures
        out@.len() == rows * len,
        forall|r: int, i: int|
            0 <= r < rows && 0 <= i < len ==> #[trigger] cell(out@, len as int, r, i) == src@[first
                + r * step + i],
{
    let total: usize = src.len();
    let mut out: Vec<T> = Vec::new();
    let mut r: usize = 0;
    let mut start: usize = first;
    while r < rows
        invariant
            r <= rows,
            total == src@.len(),
            rows > 0 ==> first + (rows - 1) * step + len <= src@.len(),
            rows * len <= usize::MAX,
            r < rows ==> start == first + r * step,
            out@.len() == r * len,
            forall|q: int, i: int|
                0 <= q < r && 0 <= i < len ==> #[trigger] cell(out@, len as int, q, i)
                    == src@[first + q * step + i],
        decreases rows - r,
    {
        proof {
            assert(r * step <= (rows - 1) * step) by (nonlinear_arith)
                requires
                    0 <= r <= rows - 1,
                    0 <= step,
            ;
            assert((r + 1) * len == r * len + len) by (nonlinear_arith);
            assert((r + 1) * step == r * step + step) by (nonlinear_arith);
            if r + 1 < rows {
                assert((r + 1) * step <= (rows - 1) * step) by (nonlinear_arith)
                    requires
                        0 <= r + 1 <= rows - 1,
                        0 <= step,
                ;
            }
        }
        let ghost before = out@;
        append_run(&mut out, src, start, start + len);
        proof {
            assert forall|q: int, i: int|
                0 <= q < r + 1 && 0 <= i < len implies #[trigger] cell(out@, len as int, q, i)
                == src@[first + q * step + i] by {
                if q < r {
                    lemma_cell_index(q, i, r as int, len as int);
                    assert(cell(before, len as int, q, i) == src@[first + q * step + i]);
                }
            }
        }
        r = r + 1;
        if r < rows {
            start = start + step;
        }
    }
    out
}

} // verus!
