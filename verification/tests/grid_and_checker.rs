use sudoku::checker::{
    is_valid_guess, valid_for_box, valid_for_column, valid_for_row, verify_puzzle,
};
use sudoku::grid::{position_to_box, position_to_column, position_to_row};

fn board(cells: &[u32]) -> Vec<u32> {
    cells.to_vec()
}

fn empty_board() -> Vec<u32> {
    vec![0u32; 81]
}

#[test]
fn position_helpers_map_linear_index() {
    assert_eq!(position_to_row(0), 0);
    assert_eq!(position_to_column(0), 0);
    assert_eq!(position_to_box(0), 0);
    assert_eq!(position_to_row(10), 1);
    assert_eq!(position_to_column(10), 1);
    assert_eq!(position_to_box(10), 0);
    assert_eq!(position_to_row(47), 5);
    assert_eq!(position_to_column(47), 2);
    assert_eq!(position_to_box(47), 3);
    assert_eq!(position_to_row(80), 8);
    assert_eq!(position_to_column(80), 8);
    assert_eq!(position_to_box(80), 8);
}

#[test]
fn row_check_sees_only_the_row() {
    let mut b = empty_board();
    b[0] = 5;
    assert!(!valid_for_row(&b, 1, 5));
    assert!(valid_for_row(&b, 1, 4));
    // The cell itself is skipped, so re-placing its own value passes.
    assert!(valid_for_row(&b, 0, 5));
    // A cell in another row is unaffected.
    assert!(valid_for_row(&b, 9, 5));
}

#[test]
fn column_check_sees_only_the_column() {
    let mut b = empty_board();
    b[0] = 7;
    assert!(!valid_for_column(&b, 9, 7));
    assert!(valid_for_column(&b, 9, 6));
    assert!(valid_for_column(&b, 0, 7));
    // A cell in another column is unaffected.
    assert!(valid_for_column(&b, 1, 7));
}

#[test]
fn box_check_sees_only_the_box() {
    let mut b = empty_board();
    b[0] = 3;
    assert!(!valid_for_box(&b, 10, 3));
    assert!(valid_for_box(&b, 10, 4));
    assert!(valid_for_box(&b, 0, 3));
    // Same row but a different box: the box check alone passes.
    assert!(valid_for_box(&b, 3, 3));
}

#[test]
fn legality_combines_row_column_and_box() {
    let mut b = empty_board();
    b[0] = 5;
    assert!(!is_valid_guess(&b, 1, 5)); // row conflict
    assert!(!is_valid_guess(&b, 9, 5)); // column conflict
    assert!(!is_valid_guess(&b, 10, 5)); // box conflict
    assert!(is_valid_guess(&b, 40, 5)); // shares no unit with cell 0
    assert!(is_valid_guess(&b, 1, 4));
}

#[test]
fn verification_accepts_a_valid_solution() {
    let b = board(&[
        5, 3, 4, 6, 7, 8, 9, 1, 2, //
        6, 7, 2, 1, 9, 5, 3, 4, 8, //
        1, 9, 8, 3, 4, 2, 5, 6, 7, //
        8, 5, 9, 7, 6, 1, 4, 2, 3, //
        4, 2, 6, 8, 5, 3, 7, 9, 1, //
        7, 1, 3, 9, 2, 4, 8, 5, 6, //
        9, 6, 1, 5, 3, 7, 2, 8, 4, //
        2, 8, 7, 4, 1, 9, 6, 3, 5, //
        3, 4, 5, 2, 8, 6, 1, 7, 9,
    ]);
    assert!(verify_puzzle(&b));
}

#[test]
fn verification_rejects_a_duplicate() {
    let mut b = board(&[
        5, 3, 4, 6, 7, 8, 9, 1, 2, //
        6, 7, 2, 1, 9, 5, 3, 4, 8, //
        1, 9, 8, 3, 4, 2, 5, 6, 7, //
        8, 5, 9, 7, 6, 1, 4, 2, 3, //
        4, 2, 6, 8, 5, 3, 7, 9, 1, //
        7, 1, 3, 9, 2, 4, 8, 5, 6, //
        9, 6, 1, 5, 3, 7, 2, 8, 4, //
        2, 8, 7, 4, 1, 9, 6, 3, 5, //
        3, 4, 5, 2, 8, 6, 1, 7, 9,
    ]);
    // Duplicate the digit of the last cell within its row.
    b[80] = b[79];
    assert!(!verify_puzzle(&b));
}

#[test]
fn verification_checks_the_very_last_cell() {
    let mut b = board(&[
        5, 3, 4, 6, 7, 8, 9, 1, 2, //
        6, 7, 2, 1, 9, 5, 3, 4, 8, //
        1, 9, 8, 3, 4, 2, 5, 6, 7, //
        8, 5, 9, 7, 6, 1, 4, 2, 3, //
        4, 2, 6, 8, 5, 3, 7, 9, 1, //
        7, 1, 3, 9, 2, 4, 8, 5, 6, //
        9, 6, 1, 5, 3, 7, 2, 8, 4, //
        2, 8, 7, 4, 1, 9, 6, 3, 5, //
        3, 4, 5, 2, 8, 6, 1, 7, 9,
    ]);
    // A conflict involving the very last cell: the scan covers all 81
    // positions, so the pair is caught from both of its ends.
    b[80] = 1; // 1 already stands at position 78 in the same row
    assert!(!verify_puzzle(&b));
}

#[test]
fn blank_cells_conflict_with_blank_peers() {
    // On an all-blank board every cell "holds" 0 and sees other 0s, so
    // verification fails: it is a check of placed values, not blanks.
    let b = empty_board();
    assert!(!verify_puzzle(&b));
}
