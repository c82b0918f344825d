//! What the search guarantees: soundness and completeness of the
//! backtracking solver, preservation of local validity, the behaviour on
//! already-solved and on conflicting boards, and determinism.

use crate::checker::{
    cell_ok, grid_locally_valid, grid_verified, lemma_ok_guess_ignores_own_cell, ok_for_box,
    ok_for_column, ok_for_row, ok_guess,
};
use crate::grid::{box_of, col_of, full_grid, grid_ok, row_of, sees};
use crate::solver::{
    guess_model, is_solution_of, lemma_grid_ok_update, search_model, solvable, solvable_from,
};
use vstd::prelude::*;

verus! {

/// A digit that already stands in `pos`'s row, column, or box cannot
/// stand at `pos` in any solution of the board.
proof fn lemma_conflict_blocks(g: Seq<u32>, pos: int, v: u32, h: Seq<u32>)
    requires
        grid_ok(g),
        0 <= pos < 81,
        1 <= v <= 9,
        !ok_guess(g, pos, v),
        is_solution_of(h, g),
    ensures
        h[pos] != v,
{
    if !ok_for_row(g, pos, v) {
        let q = choose|q: int|
            0 <= q < 81 && q != pos && row_of(q) == row_of(pos) && #[trigger] g[q] == v;
        assert(h[q] == g[q]);
        assert(cell_ok(h, q));
        assert(ok_for_row(h, q, h[q]));
        assert(h[pos] != h[q]);
    } else if !ok_for_column(g, pos, v) {
        let q = choose|q: int|
            0 <= q < 81 && q != pos && col_of(q) == col_of(pos) && #[trigger] g[q] == v;
        assert(h[q] == g[q]);
        assert(cell_ok(h, q));
        assert(ok_for_column(h, q, h[q]));
        assert(h[pos] != h[q]);
    } else {
        let q = choose|q: int|
            0 <= q < 81 && q != pos && box_of(q) == box_of(pos) && #[trigger] g[q] == v;
        assert(h[q] == g[q]);
        assert(cell_ok(h, q));
        assert(ok_for_box(h, q, h[q]));
        assert(h[pos] != h[q]);
    }
}

/// A solution of the board with `v` placed at the blank cell `pos` is
/// exactly a solution of the board itself that carries `v` at `pos`.
proof fn lemma_solution_of_update(g: Seq<u32>, pos: int, v: u32, h: Seq<u32>)
    requires
        grid_ok(g),
        0 <= pos < 81,
        g[pos] == 0,
        1 <= v <= 9,
    ensures
        is_solution_of(h, g.update(pos, v)) <==> (is_solution_of(h, g) && h[pos] == v),
{
    let g2 = g.update(pos, v);
    if is_solution_of(h, g2) {
        assert(h[pos] == g2[pos]);
        assert forall|p: int| 0 <= p < 81 && g[p] != 0 implies #[trigger] h[p] == g[p] by {
            assert(g2[p] == g[p]);
            assert(h[p] == g2[p]);
        }
    }
    if is_solution_of(h, g) && h[pos] == v {
        assert forall|p: int| 0 <= p < 81 && g2[p] != 0 implies #[trigger] h[p] == g2[p] by {
            if p != pos {
                assert(g2[p] == g[p]);
            }
        }
    }
}

/// Soundness and completeness of the search from `pos`, on a board whose
/// cells before `pos` are all filled: it succeeds exactly when the board
/// has a solution, success leaves such a solution in place, and failure
/// hands the board back unchanged.
pub proof fn lemma_search_correct(g: Seq<u32>, pos: int)
    requires
        grid_ok(g),
        0 <= pos <= 81,
        forall|q: int| 0 <= q < pos ==> #[trigger] g[q] != 0,
    ensures
        ({
            let m = search_model(g, pos);
            &&& (m.1 ==> is_solution_of(m.0, g))
            &&& (!m.1 ==> m.0 == g)
            &&& (m.1 <==> solvable(g))
        }),
    decreases 81 - pos, 10int,
{
    let m = search_model(g, pos);
    if pos == 81 {
        assert(full_grid(g)) by {
            assert forall|p: int| 0 <= p < 81 implies 1 <= #[trigger] g[p] <= 9 by {
                assert(g[p] != 0);
            }
        }
        if grid_verified(g) {
            assert(is_solution_of(g, g));
            assert(solvable(g));
        } else {
            if solvable(g) {
                let h = choose|h: Seq<u32>| is_solution_of(h, g);
                assert forall|p: int| 0 <= p < 81 implies #[trigger] h[p] == g[p] by {
                    assert(g[p] != 0);
                }
                assert(h =~= g);
                assert(grid_verified(g));
            }
        }
    } else if g[pos] != 0 {
        lemma_search_correct(g, pos + 1);
    } else {
        lemma_guess_correct(g, pos, 1);
        if solvable(g) {
            let h = choose|h: Seq<u32>| is_solution_of(h, g);
            assert(1 <= h[pos]);
            assert(solvable_from(g, pos, 1));
        }
        if solvable_from(g, pos, 1) {
            let h = choose|h: Seq<u32>| #[trigger] is_solution_of(h, g) && 1 <= h[pos];
            assert(solvable(g));
        }
    }
}

/// As `lemma_search_correct`, for the candidate loop at the blank cell
/// `pos`: trying candidates `v..=9` succeeds exactly when some solution
/// of the board places a digit of at least `v` there.
pub proof fn lemma_guess_correct(g: Seq<u32>, pos: int, v: int)
    requires
        grid_ok(g),
        0 <= pos < 81,
        g[pos] == 0,
        forall|q: int| 0 <= q < pos ==> #[trigger] g[q] != 0,
        1 <= v <= 10,
    ensures
        ({
            let m = guess_model(g, pos, v);
            &&& (m.1 ==> is_solution_of(m.0, g))
            &&& (!m.1 ==> m.0 == g)
            &&& (m.1 <==> solvable_from(g, pos, v))
        }),
    decreases 81 - pos, 10 - v,
{
    let m = guess_model(g, pos, v);
    if v == 10 {
        if solvable_from(g, pos, v) {
            let h = choose|h: Seq<u32>| #[trigger] is_solution_of(h, g) && v <= h[pos];
            assert(h[pos] <= 9);
        }
    } else {
        let vd = v as u32;
        if ok_guess(g, pos, vd) {
            let g2 = g.update(pos, vd);
            lemma_grid_ok_update(g, pos, vd);
            assert forall|q: int| 0 <= q < pos + 1 implies #[trigger] g2[q] != 0 by {
                if q < pos {
                    assert(g[q] != 0);
                }
            }
            lemma_search_correct(g2, pos + 1);
            let a = search_model(g2, pos + 1);
            if a.1 {
                lemma_solution_of_update(g, pos, vd, a.0);
                assert(is_solution_of(a.0, g) && v <= a.0[pos]);
                assert(solvable_from(g, pos, v));
            } else {
                lemma_guess_correct(g, pos, v + 1);
                if solvable_from(g, pos, v) {
                    let h = choose|h: Seq<u32>| #[trigger] is_solution_of(h, g) && v <= h[pos];
                    if h[pos] == vd {
                        lemma_solution_of_update(g, pos, vd, h);
                        assert(is_solution_of(h, g2));
                        assert(solvable(g2));
                    } else {
                        assert(is_solution_of(h, g) && v + 1 <= h[pos]);
                        assert(solvable_from(g, pos, v + 1));
                    }
                }
                if solvable_from(g, pos, v + 1) {
                    let h = choose|h: Seq<u32>| #[trigger] is_solution_of(h, g) && v + 1 <= h[pos];
                    assert(is_solution_of(h, g) && v <= h[pos]);
                    assert(solvable_from(g, pos, v));
                }
            }
        } else {
            lemma_guess_correct(g, pos, v + 1);
            if solvable_from(g, pos, v) {
                let h = choose|h: Seq<u32>| #[trigger] is_solution_of(h, g) && v <= h[pos];
                lemma_conflict_blocks(g, pos, vd, h);
                assert(is_solution_of(h, g) && v + 1 <= h[pos]);
                assert(solvable_from(g, pos, v + 1));
            }
            if solvable_from(g, pos, v + 1) {
                let h = choose|h: Seq<u32>| #[trigger] is_solution_of(h, g) && v + 1 <= h[pos];
                assert(is_solution_of(h, g) && v <= h[pos]);
                assert(solvable_from(g, pos, v));
            }
        }
    }
}

/// Placing a locally valid digit on a locally valid board leaves the
/// board locally valid.
pub proof fn lemma_valid_placement_keeps_validity(g: Seq<u32>, pos: int, v: u32)
    requires
        grid_ok(g),
        grid_locally_valid(g),
        0 <= pos < 81,
        g[pos] == 0,
        1 <= v <= 9,
        ok_guess(g, pos, v),
    ensures
        grid_locally_valid(g.update(pos, v)),
{
    let g2 = g.update(pos, v);
    lemma_ok_guess_ignores_own_cell(g2, g, pos, v);
    assert forall|p: int| 0 <= p < 81 && g2[p] != 0 implies #[trigger] cell_ok(g2, p) by {
        if p == pos {
            assert(ok_guess(g2, pos, v));
            assert(g2[pos] == v);
        } else {
            assert(g2[p] == g[p]);
            assert(cell_ok(g, p));
            let w = g[p];
            assert forall|q: int|
                0 <= q < 81 && q != p && row_of(q) == row_of(p) implies #[trigger] g2[q] != w by {
                if q == pos {
                    assert(g[p] != v);
                } else {
                    assert(g2[q] == g[q]);
                    assert(g[q] != w);
                }
            }
            assert forall|q: int|
                0 <= q < 81 && q != p && col_of(q) == col_of(p) implies #[trigger] g2[q] != w by {
                if q == pos {
                    assert(g[p] != v);
                } else {
                    assert(g2[q] == g[q]);
                    assert(g[q] != w);
                }
            }
            assert forall|q: int|
                0 <= q < 81 && q != p && box_of(q) == box_of(p) implies #[trigger] g2[q] != w by {
                if q == pos {
                    assert(g[p] != v);
                } else {
                    assert(g2[q] == g[q]);
                    assert(g[q] != w);
                }
            }
            assert(ok_guess(g2, p, w));
            assert(g2[p] == w);
        }
    }
}

/// The validity invariant of the search: started on a locally valid
/// board, every board the search hands back is locally valid again —
/// the solver never leaves a digit in conflict with its row, column,
/// or box.
pub proof fn lemma_search_keeps_validity(g: Seq<u32>, pos: int)
    requires
        grid_ok(g),
        grid_locally_valid(g),
        0 <= pos <= 81,
    ensures
        grid_locally_valid(search_model(g, pos).0),
    decreases 81 - pos, 10int,
{
    if pos < 81 {
        if g[pos] != 0 {
            lemma_search_keeps_validity(g, pos + 1);
        } else {
            lemma_guess_keeps_validity(g, pos, 1);
        }
    }
}

/// As `lemma_search_keeps_validity`, for the candidate loop at the blank
/// cell `pos`.
proof fn lemma_guess_keeps_validity(g: Seq<u32>, pos: int, v: int)
    requires
        grid_ok(g),
        grid_locally_valid(g),
        0 <= pos < 81,
        g[pos] == 0,
        1 <= v <= 10,
    ensures
        grid_locally_valid(guess_model(g, pos, v).0),
    decreases 81 - pos, 10 - v,
{
    if v <= 9 {
        let vd = v as u32;
        if ok_guess(g, pos, vd) {
            lemma_grid_ok_update(g, pos, vd);
            lemma_valid_placement_keeps_validity(g, pos, vd);
            lemma_search_keeps_validity(g.update(pos, vd), pos + 1);
        }
        lemma_guess_keeps_validity(g, pos, v + 1);
    }
}

/// On a board with every cell filled, the search skips each position in
/// turn, consumes no guess, leaves the board as it is, and reports the
/// result of final verification.
proof fn lemma_filled_search_skips(g: Seq<u32>, pos: int)
    requires
        g.len() == 81,
        0 <= pos <= 81,
        forall|p: int| 0 <= p < 81 ==> #[trigger] g[p] != 0,
    ensures
        search_model(g, pos) == (g, grid_verified(g), 0nat),
    decreases 81 - pos,
{
    if pos < 81 {
        lemma_filled_search_skips(g, pos + 1);
    }
}

/// Re-solving an already solved board succeeds immediately: the board
/// comes back untouched and not one candidate digit is consumed.
pub proof fn lemma_resolving_solved_grid(g: Seq<u32>)
    requires
        grid_ok(g),
        full_grid(g),
        grid_verified(g),
    ensures
        search_model(g, 0) == (g, true, 0nat),
{
    assert forall|p: int| 0 <= p < 81 implies #[trigger] g[p] != 0 by {
        assert(1 <= g[p]);
    }
    lemma_filled_search_skips(g, 0);
}

/// Completeness: whenever the puzzle has any solution, the search from
/// the start succeeds and leaves such a solution on the board.
pub proof fn lemma_solver_complete(g: Seq<u32>)
    requires
        grid_ok(g),
        solvable(g),
    ensures
        search_model(g, 0).1,
        is_solution_of(search_model(g, 0).0, g),
{
    lemma_search_correct(g, 0);
}

/// Soundness: a successful search leaves a genuine solution in place,
/// and a failed search proves the puzzle has none and hands the board
/// back exactly as given.
pub proof fn lemma_solver_sound(g: Seq<u32>)
    requires
        grid_ok(g),
    ensures
        search_model(g, 0).1 ==> is_solution_of(search_model(g, 0).0, g) && solvable(g),
        !search_model(g, 0).1 ==> search_model(g, 0).0 == g && !solvable(g),
{
    lemma_search_correct(g, 0);
}

/// A board whose given digits already conflict — two equal digits that
/// see each other — has no solution, so the search must fail and hand
/// the board back unchanged.
pub proof fn lemma_conflicting_input_fails(g: Seq<u32>, a: int, b: int)
    requires
        grid_ok(g),
        0 <= a < 81,
        0 <= b < 81,
        sees(a, b),
        g[a] == g[b],
        g[a] != 0,
    ensures
        !solvable(g),
        !search_model(g, 0).1,
        search_model(g, 0).0 == g,
{
    if solvable(g) {
        let h = choose|h: Seq<u32>| is_solution_of(h, g);
        assert(h[a] == g[a]);
        assert(h[b] == g[b]);
        assert(cell_ok(h, b));
        if row_of(a) == row_of(b) {
            assert(ok_for_row(h, b, h[b]));
            assert(h[a] != h[b]);
        } else if col_of(a) == col_of(b) {
            assert(ok_for_column(h, b, h[b]));
            assert(h[a] != h[b]);
        } else {
            assert(ok_for_box(h, b, h[b]));
            assert(h[a] != h[b]);
        }
    }
    lemma_search_correct(g, 0);
}

/// Determinism: the search is a function of the board alone, so solving
/// the same board again gives the same board, the same outcome, and the
/// same guess count.
pub proof fn lemma_solver_deterministic(g1: Seq<u32>, g2: Seq<u32>, pos: int)
    requires
        g1 == g2,
    ensures
        search_model(g1, pos) == search_model(g2, pos),
{
}

} // verus!
