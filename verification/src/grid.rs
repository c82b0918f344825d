//! The grid model: 81 cells in row-major order, and the position helpers
//! that map a linear position to its row, column, and 3x3 box.

use vstd::arithmetic::div_mod::{
    lemma_fundamental_div_mod, lemma_fundamental_div_mod_converse_div,
    lemma_fundamental_div_mod_converse_mod, lemma_mod_bound,
};
use vstd::prelude::*;

verus! {

/// A well-formed board: 81 cells, each 0 (blank) or a digit 1..=9.
pub open spec fn grid_ok(g: Seq<u32>) -> bool {
    g.len() == 81 && forall|p: int| 0 <= p < 81 ==> g[p] <= 9
}

/// A completely filled board: every cell holds a digit 1..=9.
pub open spec fn full_grid(g: Seq<u32>) -> bool {
    g.len() == 81 && forall|p: int| 0 <= p < 81 ==> 1 <= #[trigger] g[p] <= 9
}

/// Row index (0..=8) of a linear position.
pub open spec fn row_of(p: int) -> int {
    p / 9
}

/// Column index (0..=8) of a linear position.
pub open spec fn col_of(p: int) -> int {
    p % 9
}

/// Box index (0..=8) of a linear position: boxes are numbered row-major,
/// three box-rows of three boxes each.
pub open spec fn box_of(p: int) -> int {
    (p / 9 / 3) * 3 + (p % 9) / 3
}

/// Two distinct positions share a row, a column, or a box, so a digit
/// placed at one constrains the other.
pub open spec fn sees(p: int, q: int) -> bool {
    p != q && (row_of(p) == row_of(q) || col_of(p) == col_of(q) || box_of(p) == box_of(q))
}

/// Row index of a linear position.
pub fn position_to_row(position: u32) -> (r: u32)
    ensures
        r == row_of(position as int),
{
    position / 9
}

/// Column index of a linear position.
pub fn position_to_column(position: u32) -> (r: u32)
    ensures
        r == col_of(position as int),
{
    position % 9
}

/// Box index of a linear position.
pub fn position_to_box(position: u32) -> (r: u32)
    ensures
        r == box_of(position as int),
{
    let box_row = position_to_row(position) / 3;
    let box_column = position_to_column(position) / 3;
    (box_row * 3) + box_column
}

/// A quotient is pinned down by bracketing: if `x` lies in the `k`-th
/// length-`d` block, then `x / d == k` and `x % d == x - k * d`.
pub proof fn lemma_div_exact(x: int, d: int, k: int)
    requires
        d > 0,
        k * d <= x < k * d + d,
    ensures
        x / d == k,
        x % d == x - k * d,
{
    lemma_fundamental_div_mod_converse_div(x, d, k, x - k * d);
    lemma_fundamental_div_mod_converse_mod(x, d, k, x - k * d);
}

/// Decomposition of a position into its row and column, with bounds.
pub proof fn lemma_pos_decomp(p: int)
    requires
        0 <= p < 81,
    ensures
        p == row_of(p) * 9 + col_of(p),
        0 <= row_of(p) < 9,
        0 <= col_of(p) < 9,
{
    lemma_fundamental_div_mod(p, 9);
    lemma_mod_bound(p, 9);
}

/// The positions of one row are exactly one contiguous block of nine.
pub proof fn lemma_row_range(p: int, q: int)
    requires
        0 <= p < 81,
        row_of(p) * 9 <= q < row_of(p) * 9 + 9,
    ensures
        0 <= q < 81,
        row_of(q) == row_of(p),
        col_of(q) == q - row_of(p) * 9,
{
    lemma_pos_decomp(p);
    lemma_div_exact(q, 9, row_of(p));
}

/// The position in a given row that lies in a given column.
pub proof fn lemma_row_col_index(r: int, c: int)
    requires
        0 <= r < 9,
        0 <= c < 9,
    ensures
        0 <= r * 9 + c < 81,
        row_of(r * 9 + c) == r,
        col_of(r * 9 + c) == c,
{
    lemma_div_exact(r * 9 + c, 9, r);
}

/// Decomposition of a position's box index: its box-row is `row / 3` and
/// its box-column is `column / 3`, each in 0..=2, so the box index is in
/// 0..=8 and determines both.
pub proof fn lemma_box_decomp(p: int)
    requires
        0 <= p < 81,
    ensures
        0 <= box_of(p) < 9,
        box_of(p) / 3 == row_of(p) / 3,
        box_of(p) % 3 == col_of(p) / 3,
        0 <= row_of(p) / 3 < 3,
        0 <= col_of(p) / 3 < 3,
        row_of(p) / 3 * 3 <= row_of(p) < row_of(p) / 3 * 3 + 3,
        col_of(p) / 3 * 3 <= col_of(p) < col_of(p) / 3 * 3 + 3,
{
    lemma_pos_decomp(p);
    lemma_fundamental_div_mod(row_of(p), 3);
    lemma_mod_bound(row_of(p), 3);
    lemma_fundamental_div_mod(col_of(p), 3);
    lemma_mod_bound(col_of(p), 3);
    lemma_div_exact(box_of(p), 3, row_of(p) / 3);
}

/// Two positions share a box exactly when their box-rows and box-columns
/// agree.
pub proof fn lemma_same_box(p: int, q: int)
    requires
        0 <= p < 81,
        0 <= q < 81,
    ensures
        (box_of(p) == box_of(q)) <==> (row_of(p) / 3 == row_of(q) / 3 && col_of(p) / 3 == col_of(
            q,
        ) / 3),
{
    lemma_box_decomp(p);
    lemma_box_decomp(q);
}

} // verus!
