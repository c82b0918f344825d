use sudoku::checker::verify_puzzle;
use sudoku::solver::{solve_board, solve_sudoku, SolveError};

fn board(cells: &[u32]) -> Vec<u32> {
    cells.to_vec()
}

fn classic_puzzle() -> Vec<u32> {
    board(&[
        5, 3, 0, 0, 7, 0, 0, 0, 0, //
        6, 0, 0, 1, 9, 5, 0, 0, 0, //
        0, 9, 8, 0, 0, 0, 0, 6, 0, //
        8, 0, 0, 0, 6, 0, 0, 0, 3, //
        4, 0, 0, 8, 0, 3, 0, 0, 1, //
        7, 0, 0, 0, 2, 0, 0, 0, 6, //
        0, 6, 0, 0, 0, 0, 2, 8, 0, //
        0, 0, 0, 4, 1, 9, 0, 0, 5, //
        0, 0, 0, 0, 8, 0, 0, 7, 9,
    ])
}

fn classic_solution() -> Vec<u32> {
    board(&[
        5, 3, 4, 6, 7, 8, 9, 1, 2, //
        6, 7, 2, 1, 9, 5, 3, 4, 8, //
        1, 9, 8, 3, 4, 2, 5, 6, 7, //
        8, 5, 9, 7, 6, 1, 4, 2, 3, //
        4, 2, 6, 8, 5, 3, 7, 9, 1, //
        7, 1, 3, 9, 2, 4, 8, 5, 6, //
        9, 6, 1, 5, 3, 7, 2, 8, 4, //
        2, 8, 7, 4, 1, 9, 6, 3, 5, //
        3, 4, 5, 2, 8, 6, 1, 7, 9,
    ])
}

#[test]
fn classic_puzzle_resolves_to_known_solution() {
    let mut b = classic_puzzle();
    let outcome = solve_board(&mut b).unwrap();
    assert!(outcome.solved);
    assert_eq!(b, classic_solution());
    assert!(outcome.guesses > 0);
    // The fixed-order search is deterministic, and the counter records
    // every candidate considered, the locally rejected ones included, so
    // the count is an exact constant for this board.
    assert_eq!(outcome.guesses, 37_652);
}

#[test]
fn solved_grid_resolves_with_zero_guesses() {
    let mut b = classic_solution();
    let outcome = solve_board(&mut b).unwrap();
    assert!(outcome.solved);
    assert_eq!(outcome.guesses, 0);
    assert_eq!(b, classic_solution());
}

#[test]
fn single_fixed_cell_finds_a_full_valid_grid() {
    let mut b = vec![0u32; 81];
    b[0] = 1;
    let outcome = solve_board(&mut b).unwrap();
    assert!(outcome.solved);
    assert_eq!(b[0], 1);
    assert_eq!(b.len(), 81);
    for &cell in b.iter() {
        assert!((1..=9).contains(&cell));
    }
    assert!(verify_puzzle(&b));
}

#[test]
fn conflicting_fixed_cells_report_failure_and_restore() {
    // Two 9s in the same column among the given digits: cell 0 is turned
    // into a 9 while cell 54 already holds one, and two cells are blanked
    // so the solver genuinely searches before verification rejects every
    // completed branch.
    let mut b = classic_solution();
    b[0] = 9;
    b[1] = 0;
    b[2] = 0;
    let before = b.clone();
    let outcome = solve_board(&mut b).unwrap();
    assert!(!outcome.solved);
    // Fixed cells unchanged, every solver-touched cell reset to 0.
    assert_eq!(b, before);
}

#[test]
fn conflicting_row_cells_report_failure() {
    // Two 5s in row 3 among the given digits, one blank cell elsewhere.
    let mut b = classic_solution();
    b[32] = 5; // row 3 already holds a 5 at position 28
    b[40] = 0;
    let before = b.clone();
    let outcome = solve_board(&mut b).unwrap();
    assert!(!outcome.solved);
    assert_eq!(b, before);
}

#[test]
fn guess_count_is_reproducible() {
    let mut first = classic_puzzle();
    let mut second = classic_puzzle();
    let a = solve_board(&mut first).unwrap();
    let b = solve_board(&mut second).unwrap();
    assert_eq!(a.guesses, b.guesses);
    assert_eq!(first, second);

    let mut third = vec![0u32; 81];
    third[0] = 1;
    let mut fourth = vec![0u32; 81];
    fourth[0] = 1;
    let c = solve_board(&mut third).unwrap();
    let d = solve_board(&mut fourth).unwrap();
    assert_eq!(c.guesses, d.guesses);
}

#[test]
fn wrong_length_is_rejected() {
    let mut short = vec![0u32; 80];
    assert_eq!(solve_board(&mut short), Err(SolveError::InvalidInput));
    assert_eq!(short, vec![0u32; 80]);

    let mut long = vec![0u32; 82];
    assert_eq!(solve_board(&mut long), Err(SolveError::InvalidInput));

    let mut none: Vec<u32> = Vec::new();
    assert_eq!(solve_board(&mut none), Err(SolveError::InvalidInput));
}

#[test]
fn out_of_range_digit_is_rejected() {
    let mut b = vec![0u32; 81];
    b[40] = 10;
    let before = b.clone();
    assert_eq!(solve_board(&mut b), Err(SolveError::InvalidInput));
    assert_eq!(b, before);
}

#[test]
fn search_from_the_end_only_verifies() {
    let mut solved = classic_solution();
    let mut guesses: u64 = 7;
    assert!(solve_sudoku(&mut solved, 81, &mut guesses));
    assert_eq!(guesses, 7);
    assert_eq!(solved, classic_solution());

    let mut bad = classic_solution();
    bad[80] = 1;
    let mut guesses2: u64 = 0;
    assert!(!solve_sudoku(&mut bad, 81, &mut guesses2));
    assert_eq!(guesses2, 0);
}

#[test]
fn failed_search_counts_every_candidate() {
    // A board whose given digits conflict makes every branch fail; the
    // counter still records each candidate considered — one per digit
    // tried at the single blank cell, all nine locally invalid.
    let mut b = classic_solution();
    b[32] = 5; // duplicates the 5 at position 28 in row 3
    b[40] = 0;
    let outcome = solve_board(&mut b).unwrap();
    assert!(!outcome.solved);
    assert_eq!(outcome.guesses, 9);
}
