//! The constraint checker: whether a candidate digit may stand at a position
//! without repeating a digit in that position's row, column, or 3x3 box.

use crate::grid::{
    box_of, col_of, lemma_box_decomp, lemma_pos_decomp, lemma_row_col_index, lemma_row_range,
    lemma_same_box, position_to_box, position_to_column, position_to_row, row_of,
};
use vstd::prelude::*;

verus! {

/// No cell other than `p` in `p`'s row holds `v`.
pub open spec fn ok_for_row(g: Seq<u32>, p: int, v: u32) -> bool {
    forall|q: int| 0 <= q < 81 && q != p && row_of(q) == row_of(p) ==> #[trigger] g[q] != v
}

/// No cell other than `p` in `p`'s column holds `v`.
pub open spec fn ok_for_column(g: Seq<u32>, p: int, v: u32) -> bool {
    forall|q: int| 0 <= q < 81 && q != p && col_of(q) == col_of(p) ==> #[trigger] g[q] != v
}

/// No cell other than `p` in `p`'s box holds `v`.
pub open spec fn ok_for_box(g: Seq<u32>, p: int, v: u32) -> bool {
    forall|q: int| 0 <= q < 81 && q != p && box_of(q) == box_of(p) ==> #[trigger] g[q] != v
}

/// Placing `v` at `p` repeats no digit in `p`'s row, column, or box.
/// The cell `p` itself is never consulted.
pub open spec fn ok_guess(g: Seq<u32>, p: int, v: u32) -> bool {
    ok_for_row(g, p, v) && ok_for_column(g, p, v) && ok_for_box(g, p, v)
}

/// The value standing at `p` repeats no digit among the other cells that
/// `p` sees.
pub open spec fn cell_ok(g: Seq<u32>, p: int) -> bool {
    ok_guess(g, p, g[p])
}

/// Every cell's value is consistent with the rest of the board. On a
/// completely filled board this says the board is a valid Sudoku solution.
pub open spec fn grid_verified(g: Seq<u32>) -> bool {
    forall|p: int| 0 <= p < 81 ==> #[trigger] cell_ok(g, p)
}

/// Every non-zero cell's digit appears nowhere else in its row, column,
/// or box: the board is locally valid. Blank cells constrain nothing.
pub open spec fn grid_locally_valid(g: Seq<u32>) -> bool {
    forall|p: int| 0 <= p < 81 && g[p] != 0 ==> #[trigger] cell_ok(g, p)
}

/// `ok_guess` never reads the cell it is about to fill, so it agrees on any
/// two boards that differ only at that cell.
pub proof fn lemma_ok_guess_ignores_own_cell(a: Seq<u32>, b: Seq<u32>, p: int, v: u32)
    requires
        a.len() == 81,
        b.len() == 81,
        forall|q: int| 0 <= q < 81 && q != p ==> a[q] == #[trigger] b[q],
    ensures
        ok_guess(a, p, v) == ok_guess(b, p, v),
{
    assert forall|q: int| 0 <= q < 81 && q != p && row_of(q) == row_of(p) && #[trigger] a[q] == v
        implies b[q] == v by {}
    assert forall|q: int| 0 <= q < 81 && q != p && row_of(q) == row_of(p) && #[trigger] b[q] == v
        implies a[q] == v by {}
    assert forall|q: int| 0 <= q < 81 && q != p && col_of(q) == col_of(p) && #[trigger] a[q] == v
        implies b[q] == v by {}
    assert forall|q: int| 0 <= q < 81 && q != p && col_of(q) == col_of(p) && #[trigger] b[q] == v
        implies a[q] == v by {}
    assert forall|q: int| 0 <= q < 81 && q != p && box_of(q) == box_of(p) && #[trigger] a[q] == v
        implies b[q] == v by {}
    assert forall|q: int| 0 <= q < 81 && q != p && box_of(q) == box_of(p) && #[trigger] b[q] == v
        implies a[q] == v by {}
}

/// Scans the nine cells of `position`'s row, skipping `position` itself,
/// and reports whether `guess` is absent from all of them.
pub fn valid_for_row(puzzle: &Vec<u32>, position: usize, guess: u32) -> (r: bool)
    requires
        puzzle@.len() == 81,
        position < 81,
    ensures
        r == ok_for_row(puzzle@, position as int, guess),
{
    proof {
        lemma_pos_decomp(position as int);
    }
    let row = position_to_row(position as u32);
    let initial_index = row * 9;
    let mut index = initial_index;
    while index < initial_index + 9
        invariant
            puzzle@.len() == 81,
            position < 81,
            row == row_of(position as int),
            0 <= row < 9,
            initial_index == row * 9,
            initial_index <= index <= initial_index + 9,
            forall|q: int|
                initial_index <= q < index && q != position ==> #[trigger] puzzle@[q] != guess,
        decreases initial_index + 9 - index,
    {
        proof {
            lemma_row_range(position as int, index as int);
        }
        if index as usize != position {
            if puzzle[index as usize] == guess {
                return false;
            }
        }
        index = index + 1;
    }
    proof {
        assert forall|q: int|
            0 <= q < 81 && q != position as int && row_of(q) == row_of(position as int) implies #[trigger] puzzle@[q]
            != guess by {
            lemma_pos_decomp(q);
        }
    }
    true
}

/// Scans the nine cells of `position`'s column, skipping `position` itself,
/// and reports whether `guess` is absent from all of them.
pub fn valid_for_column(puzzle: &Vec<u32>, position: usize, guess: u32) -> (r: bool)
    requires
        puzzle@.len() == 81,
        position < 81,
    ensures
        r == ok_for_column(puzzle@, position as int, guess),
{
    proof {
        lemma_pos_decomp(position as int);
    }
    let column = position_to_column(position as u32);
    let mut row: u32 = 0;
    while row < 9
        invariant
            puzzle@.len() == 81,
            position < 81,
            column == col_of(position as int),
            0 <= column < 9,
            0 <= row <= 9,
            forall|q: int|
                0 <= q < 81 && q != position && col_of(q) == col_of(position as int) && row_of(q)
                    < row ==> #[trigger] puzzle@[q] != guess,
        decreases 9 - row,
    {
        let index = (row * 9 + column) as usize;
        proof {
            lemma_row_col_index(row as int, column as int);
        }
        if index != position {
            if puzzle[index] == guess {
                return false;
            }
        }
        proof {
            assert forall|q: int|
                0 <= q < 81 && q != position && col_of(q) == col_of(position as int) && row_of(q)
                    < row + 1 implies #[trigger] puzzle@[q] != guess by {
                lemma_pos_decomp(q);
            }
        }
        row = row + 1;
    }
    true
}

/// Scans the nine cells of `position`'s 3x3 box, skipping `position`
/// itself, and reports whether `guess` is absent from all of them.
pub fn valid_for_box(puzzle: &Vec<u32>, position: usize, guess: u32) -> (r: bool)
    requires
        puzzle@.len() == 81,
        position < 81,
    ensures
        r == ok_for_box(puzzle@, position as int, guess),
{
    proof {
        lemma_box_decomp(position as int);
    }
    let box_number = position_to_box(position as u32);

    let box_row = box_number / 3;
    let box_column = box_number % 3;

    let initial_row = box_row * 3;
    let initial_column = box_column * 3;

    let mut row = initial_row;
    while row < initial_row + 3
        invariant
            puzzle@.len() == 81,
            position < 81,
            initial_row == row_of(position as int) / 3 * 3,
            initial_column == col_of(position as int) / 3 * 3,
            0 <= initial_row <= 6,
            0 <= initial_column <= 6,
            initial_row <= row <= initial_row + 3,
            forall|q: int|
                0 <= q < 81 && q != position && box_of(q) == box_of(position as int) && row_of(q)
                    < row ==> #[trigger] puzzle@[q] != guess,
        decreases initial_row + 3 - row,
    {
        let mut column = initial_column;
        while column < initial_column + 3
            invariant
                puzzle@.len() == 81,
                position < 81,
                initial_row == row_of(position as int) / 3 * 3,
                initial_column == col_of(position as int) / 3 * 3,
                0 <= initial_row <= 6,
                0 <= initial_column <= 6,
                initial_row <= row < initial_row + 3,
                initial_column <= column <= initial_column + 3,
                forall|q: int|
                    0 <= q < 81 && q != position && box_of(q) == box_of(position as int) && row_of(
                        q,
                    ) < row ==> #[trigger] puzzle@[q] != guess,
                forall|q: int|
                    0 <= q < 81 && q != position && box_of(q) == box_of(position as int) && row_of(
                        q,
                    ) == row && col_of(q) < column ==> #[trigger] puzzle@[q] != guess,
            decreases initial_column + 3 - column,
        {
            let index = (row * 9 + column) as usize;
            proof {
                lemma_row_col_index(row as int, column as int);
                lemma_same_box(position as int, index as int);
                lemma_box_decomp(index as int);
            }
            if position != index {
                if puzzle[index] == guess {
                    return false;
                }
            }
            proof {
                assert forall|q: int|
                    0 <= q < 81 && q != position && box_of(q) == box_of(position as int) && row_of(
                        q,
                    ) == row && col_of(q) < column + 1 implies #[trigger] puzzle@[q] != guess by {
                    lemma_pos_decomp(q);
                    lemma_same_box(position as int, q);
                }
            }
            column = column + 1;
        }
        proof {
            assert forall|q: int|
                0 <= q < 81 && q != position && box_of(q) == box_of(position as int) && row_of(q)
                    < row + 1 implies #[trigger] puzzle@[q] != guess by {
                lemma_pos_decomp(q);
                lemma_same_box(position as int, q);
            }
        }
        row = row + 1;
    }
    proof {
        assert forall|q: int|
            0 <= q < 81 && q != position as int && box_of(q) == box_of(position as int) implies #[trigger] puzzle@[q]
            != guess by {
            lemma_pos_decomp(q);
            lemma_same_box(position as int, q);
            lemma_box_decomp(q);
        }
    }
    true
}

/// The sole legality predicate: `guess` may stand at `position` exactly
/// when its row, column, and box checks all pass.
pub fn is_valid_guess(puzzle: &Vec<u32>, position: usize, guess: u32) -> (r: bool)
    requires
        puzzle@.len() == 81,
        position < 81,
    ensures
        r == ok_guess(puzzle@, position as int, guess),
{
    valid_for_row(puzzle, position, guess) && valid_for_column(puzzle, position, guess)
        && valid_for_box(puzzle, position, guess)
}

/// Re-checks every one of the 81 cells against its own already-placed
/// value, confirming global consistency of the board.
pub fn verify_puzzle(puzzle: &Vec<u32>) -> (r: bool)
    requires
        puzzle@.len() == 81,
    ensures
        r == grid_verified(puzzle@),
{
    let mut index: usize = 0;
    while index < 81
        invariant
            puzzle@.len() == 81,
            0 <= index <= 81,
            forall|p: int| 0 <= p < index ==> #[trigger] cell_ok(puzzle@, p),
        decreases 81 - index,
    {
        let value = puzzle[index];
        if !(is_valid_guess(puzzle, index, value)) {
            assert(!cell_ok(puzzle@, index as int));
            return false;
        }
        index = index + 1;
    }
    true
}

} // verus!
