//! The backtracking solver: a depth-first, position-ordered search that
//! tries candidate digits 1 through 9 in ascending order at each blank
//! cell, pruning with the constraint checker, undoing on failure, and
//! counting every candidate it considers.

use crate::checker::{
    grid_verified, is_valid_guess, lemma_ok_guess_ignores_own_cell, ok_guess, verify_puzzle,
};
use crate::grid::{full_grid, grid_ok};
use vstd::prelude::*;

verus! {

/// The counter value after `n` more candidates have been considered,
/// capping at `u64::MAX` instead of wrapping.
pub open spec fn sat_add(c: u64, n: nat) -> u64 {
    if c + n <= u64::MAX {
        (c + n) as u64
    } else {
        u64::MAX
    }
}

/// Functional model of the search from position `pos` on board `g`:
/// the board left behind, whether a solution was found, and how many
/// candidate digits were considered. Cells before `pos` are never read.
///
/// At `pos == 81` the search delegates to final verification; a non-zero
/// cell is skipped without consuming a guess; a blank cell is filled by
/// trying candidates ascending from 1.
pub open spec fn search_model(g: Seq<u32>, pos: int) -> (Seq<u32>, bool, nat)
    decreases 81 - pos, 10int,
{
    if pos < 0 {
        (g, false, 0)
    } else if 81 <= pos {
        (g, grid_verified(g), 0)
    } else if g[pos] != 0 {
        search_model(g, pos + 1)
    } else {
        guess_model(g, pos, 1)
    }
}

/// Functional model of trying candidates `v..=9` at the blank cell `pos`:
/// each candidate counts as one guess whether or not it is locally valid;
/// a valid candidate is placed and the search continues at `pos + 1`; on
/// failure the next candidate is tried; when all are exhausted the board
/// is handed back unchanged.
pub open spec fn guess_model(g: Seq<u32>, pos: int, v: int) -> (Seq<u32>, bool, nat)
    decreases 81 - pos, 10 - v,
{
    if pos < 0 || 81 <= pos || v < 1 || 9 < v {
        (g, false, 0)
    } else if ok_guess(g, pos, v as u32) {
        let attempt = search_model(g.update(pos, v as u32), pos + 1);
        if attempt.1 {
            (attempt.0, true, 1 + attempt.2)
        } else {
            let rest = guess_model(g, pos, v + 1);
            (rest.0, rest.1, 1 + attempt.2 + rest.2)
        }
    } else {
        let rest = guess_model(g, pos, v + 1);
        (rest.0, rest.1, 1 + rest.2)
    }
}

/// A solved board for the puzzle `g`: completely filled, globally
/// consistent, and agreeing with `g` wherever `g` already holds a digit.
pub open spec fn is_solution_of(h: Seq<u32>, g: Seq<u32>) -> bool {
    &&& full_grid(h)
    &&& grid_verified(h)
    &&& forall|p: int| 0 <= p < 81 && g[p] != 0 ==> #[trigger] h[p] == g[p]
}

/// The puzzle has at least one solution.
pub open spec fn solvable(g: Seq<u32>) -> bool {
    exists|h: Seq<u32>| is_solution_of(h, g)
}

/// The puzzle has a solution whose digit at `pos` is at least `v`.
pub open spec fn solvable_from(g: Seq<u32>, pos: int, v: int) -> bool {
    exists|h: Seq<u32>| #[trigger] is_solution_of(h, g) && v <= h[pos]
}

/// Overwriting one cell with a digit keeps a board well-formed.
pub proof fn lemma_grid_ok_update(g: Seq<u32>, pos: int, v: u32)
    requires
        grid_ok(g),
        0 <= pos < 81,
        v <= 9,
    ensures
        grid_ok(g.update(pos, v)),
{
    assert forall|p: int| 0 <= p < 81 implies #[trigger] g.update(pos, v)[p] <= 9 by {}
}

/// The search leaves a well-formed board well-formed, and a failed search
/// hands the board back exactly as it was given.
proof fn lemma_search_frame(g: Seq<u32>, pos: int)
    requires
        grid_ok(g),
        0 <= pos <= 81,
    ensures
        grid_ok(search_model(g, pos).0),
        !search_model(g, pos).1 ==> search_model(g, pos).0 == g,
    decreases 81 - pos, 10int,
{
    if pos < 81 {
        if g[pos] != 0 {
            lemma_search_frame(g, pos + 1);
        } else {
            lemma_guess_frame(g, pos, 1);
        }
    }
}

/// As `lemma_search_frame`, for the candidate loop at a blank cell.
proof fn lemma_guess_frame(g: Seq<u32>, pos: int, v: int)
    requires
        grid_ok(g),
        0 <= pos < 81,
        1 <= v <= 10,
    ensures
        grid_ok(guess_model(g, pos, v).0),
        !guess_model(g, pos, v).1 ==> guess_model(g, pos, v).0 == g,
    decreases 81 - pos, 10 - v,
{
    if v <= 9 {
        if ok_guess(g, pos, v as u32) {
            lemma_grid_ok_update(g, pos, v as u32);
            lemma_search_frame(g.update(pos, v as u32), pos + 1);
        }
        lemma_guess_frame(g, pos, v + 1);
    }
}

/// Capping additions one after the other caps the sum: counting `m` and
/// then `n` guesses lands on the same value as counting `m + n` at once.
proof fn lemma_sat_add_chain(c: u64, m: nat, n: nat)
    ensures
        sat_add(sat_add(c, m), n) == sat_add(c, m + n),
{
}

/// Records one considered candidate, capping at `u64::MAX` rather than
/// wrapping around.
fn count_guess(guesses: &mut u64)
    ensures
        *final(guesses) == sat_add(*old(guesses), 1),
{
    if *guesses < u64::MAX {
        *guesses = *guesses + 1;
    }
}

/// Depth-first backtracking search from `position`, exactly as
/// `search_model` describes it: on success the solved board stays in
/// `puzzle`; on failure `puzzle` is handed back unchanged; `guesses`
/// grows by one per candidate digit considered, capping at `u64::MAX`.
#[verifier::loop_isolation(false)]
pub fn solve_sudoku(puzzle: &mut Vec<u32>, position: usize, guesses: &mut u64) -> (solved: bool)
    requires
        grid_ok(old(puzzle)@),
        position <= 81,
    ensures
        ({
            let m = search_model(old(puzzle)@, position as int);
            &&& solved == m.1
            &&& final(puzzle)@ == m.0
            &&& *final(guesses) == sat_add(*old(guesses), m.2)
        }),
    decreases 81 - position,
{
    if position == 81 {
        return verify_puzzle(puzzle);
    }
    if puzzle[position] != 0 {
        return solve_sudoku(puzzle, position + 1, guesses);
    }

    let ghost g0 = puzzle@;
    let ghost c0 = *guesses;
    let ghost mut consumed: nat = 0;

    let mut guess: u32 = 1;
    while guess <= 9
        invariant
            grid_ok(g0),
            position < 81,
            g0[position as int] == 0,
            1 <= guess <= 10,
            puzzle@.len() == 81,
            puzzle@[position as int] <= 9,
            forall|q: int| 0 <= q < 81 && q != position ==> #[trigger] puzzle@[q] == g0[q],
            *guesses == sat_add(c0, consumed),
            ({
                let whole = guess_model(g0, position as int, 1);
                let rest = guess_model(g0, position as int, guess as int);
                &&& whole.0 == rest.0
                &&& whole.1 == rest.1
                &&& whole.2 == consumed + rest.2
            }),
        decreases 10 - guess,
    {
        count_guess(guesses);
        proof {
            lemma_sat_add_chain(c0, consumed, 1);
            consumed = consumed + 1;
            lemma_ok_guess_ignores_own_cell(puzzle@, g0, position as int, guess);
        }

        if is_valid_guess(puzzle, position, guess) {
            puzzle[position] = guess;
            proof {
                assert(puzzle@ =~= g0.update(position as int, guess));
                lemma_grid_ok_update(g0, position as int, guess);
            }
            let ghost attempt = search_model(g0.update(position as int, guess), position as int + 1);

            if solve_sudoku(puzzle, position + 1, guesses) {
                proof {
                    let whole = guess_model(g0, position as int, 1);
                    let rest = guess_model(g0, position as int, guess as int);
                    assert(rest.0 == attempt.0 && rest.1 && rest.2 == 1 + attempt.2);
                    lemma_sat_add_chain(c0, consumed, attempt.2);
                    assert(*guesses == sat_add(c0, whole.2));
                    assert(search_model(g0, position as int) == whole);
                }
                return true;
            }
            proof {
                let rest = guess_model(g0, position as int, guess as int);
                let next = guess_model(g0, position as int, guess as int + 1);
                assert(rest.0 == next.0 && rest.1 == next.1 && rest.2 == 1 + attempt.2 + next.2);
                lemma_sat_add_chain(c0, consumed, attempt.2);
                consumed = consumed + attempt.2;
                lemma_search_frame(g0.update(position as int, guess), position as int + 1);
            }
        } else {
            proof {
                let rest = guess_model(g0, position as int, guess as int);
                let next = guess_model(g0, position as int, guess as int + 1);
                assert(rest.0 == next.0 && rest.1 == next.1 && rest.2 == 1 + next.2);
            }
        }
        guess = guess + 1;
    }

    puzzle[position] = 0;
    proof {
        assert(puzzle@ =~= g0);
        let whole = guess_model(g0, position as int, 1);
        let rest = guess_model(g0, position as int, 10);
        assert(rest == (g0, false, 0nat));
        assert(search_model(g0, position as int) == whole);
    }
    false
}

/// The one way a board is rejected at the boundary: it is not an ordered
/// list of exactly 81 values in 0..=9.
#[derive(Clone, Copy, Debug, PartialEq, Eq, Structural)]
pub enum SolveError {
    InvalidInput,
}

/// What one solve reports: whether a solution was found, and how many
/// candidate digits the search considered. The counter starts fresh at
/// zero on every call.
#[derive(Clone, Copy, Debug, PartialEq, Eq, Structural)]
pub struct SolveOutcome {
    pub solved: bool,
    pub guesses: u64,
}

/// The validated entry point: rejects a board that is not 81 cells of
/// 0..=9, and otherwise runs the full search from the first position
/// with a fresh guess counter. On success the solved board replaces the
/// blanks in place; on failure — exactly when the puzzle has no
/// solution — the board is handed back unchanged.
#[verifier::loop_isolation(false)]
pub fn solve_board(puzzle: &mut Vec<u32>) -> (r: Result<SolveOutcome, SolveError>)
    ensures
        r is Ok <==> grid_ok(old(puzzle)@),
        !grid_ok(old(puzzle)@) ==> r == Err::<SolveOutcome, SolveError>(SolveError::InvalidInput)
            && final(puzzle)@ == old(puzzle)@,
        grid_ok(old(puzzle)@) ==> ({
            let m = search_model(old(puzzle)@, 0);
            &&& r == Ok::<SolveOutcome, SolveError>(
                SolveOutcome { solved: m.1, guesses: sat_add(0, m.2) },
            )
            &&& final(puzzle)@ == m.0
            &&& (m.1 <==> solvable(old(puzzle)@))
            &&& (m.1 ==> is_solution_of(final(puzzle)@, old(puzzle)@))
            &&& (!m.1 ==> final(puzzle)@ == old(puzzle)@)
        }),
{
    if puzzle.len() != 81 {
        return Err(SolveError::InvalidInput);
    }
    let mut index: usize = 0;
    while index < 81
        invariant
            0 <= index <= 81,
            forall|p: int| 0 <= p < index ==> #[trigger] puzzle@[p] <= 9,
        decreases 81 - index,
    {
        if puzzle[index] > 9 {
            return Err(SolveError::InvalidInput);
        }
        index = index + 1;
    }

    let mut guesses: u64 = 0;
    let solved = solve_sudoku(puzzle, 0, &mut guesses);
    proof {
        crate::laws::lemma_search_correct(old(puzzle)@, 0);
    }
    Ok(SolveOutcome { solved, guesses })
}

} // verus!
