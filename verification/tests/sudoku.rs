use rum::array2::Array2;
use rum::sudoku::{all_columns_valid, all_rows_valid, all_squares_valid, set_of_nine_values_valid};

fn solved_board() -> Vec<u16> {
    vec![
        5, 3, 4, 6, 7, 8, 9, 1, 2,
        6, 7, 2, 1, 9, 5, 3, 4, 8,
        1, 9, 8, 3, 4, 2, 5, 6, 7,
        8, 5, 9, 7, 6, 1, 4, 2, 3,
        4, 2, 6, 8, 5, 3, 7, 9, 1,
        7, 1, 3, 9, 2, 4, 8, 5, 6,
        9, 6, 1, 5, 3, 7, 2, 8, 4,
        2, 8, 7, 4, 1, 9, 6, 3, 5,
        3, 4, 5, 2, 8, 6, 1, 7, 9,
    ]
}

#[test]
fn solved_board_is_valid() {
    let board = Array2::from_row_major(solved_board(), 9);
    assert!(all_rows_valid(&board));
    assert!(all_columns_valid(&board));
    assert!(all_squares_valid(&board));
}

#[test]
fn tampered_board_is_invalid() {
    let mut cells = solved_board();
    cells[0] = 3;
    let board = Array2::from_row_major(cells, 9);
    assert!(!all_rows_valid(&board));
    assert!(!all_columns_valid(&board));
}

#[test]
fn set_of_nine() {
    assert!(set_of_nine_values_valid(vec![1, 2, 3, 4, 5, 6, 7, 8, 9]));
    assert!(set_of_nine_values_valid(vec![9, 1, 8, 2, 7, 3, 6, 4, 5]));
    // A duplicate digit breaks the set.
    assert!(!set_of_nine_values_valid(vec![1, 1, 3, 4, 5, 6, 7, 8, 9]));
    // Too few distinct values.
    assert!(!set_of_nine_values_valid(vec![1, 2, 3]));
    // Nine distinct values summing to 45 pass, even off the digit range:
    // the check counts distinct values and their sum, nothing else.
    assert!(set_of_nine_values_valid(vec![0, 2, 3, 4, 5, 6, 7, 8, 10]));
}
