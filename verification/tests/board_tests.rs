use tetris_rl::action::{ComposedAction, SingularAction};
use tetris_rl::board::{is_row_full, Board, GAME_HEIGHT, GAME_WIDTH, RENDER_HEIGHT, RENDER_WIDTH};
use tetris_rl::piece::Piece;

fn single_cell(tag: u8) -> [[u8; 4]; 4] {
    [[tag, 0, 0, 0], [0, 0, 0, 0], [0, 0, 0, 0], [0, 0, 0, 0]]
}

fn is_empty_board(board: &Board) -> bool {
    board.state.iter().all(|row| row.iter().all(|cell| *cell == 0))
}

#[test]
fn board_dimensions() {
    assert_eq!(GAME_WIDTH, 10);
    assert_eq!(GAME_HEIGHT, 24);
    assert_eq!(RENDER_WIDTH, 10);
    assert_eq!(RENDER_HEIGHT, 20);
    let board = Board::empty();
    assert_eq!(board.state.len(), 24);
    assert_eq!(board.state[0].len(), 10);
    assert!(is_empty_board(&board));
}

#[test]
fn is_row_full_needs_every_cell() {
    assert!(!is_row_full(&[0; 10]));
    assert!(is_row_full(&[1, 2, 3, 4, 5, 6, 7, 1, 2, 3]));
    assert!(!is_row_full(&[1, 2, 3, 4, 5, 6, 7, 1, 2, 0]));
    assert!(!is_row_full(&[0, 2, 3, 4, 5, 6, 7, 1, 2, 3]));
}

#[test]
fn is_valid_state_checks_bounds() {
    let board = Board::empty();
    let piece = Piece::new_from_idx(5);
    assert!(board.is_valid_state(piece));
    // the horizontal bar covers columns x..x+3 in the row below its origin
    assert!(board.is_valid_state(piece.simulate_action(ComposedAction { rotation: 0, shift: -3 })));
    assert!(!board.is_valid_state(piece.simulate_action(ComposedAction { rotation: 0, shift: -4 })));
    assert!(board.is_valid_state(piece.simulate_action(ComposedAction { rotation: 0, shift: 3 })));
    assert!(!board.is_valid_state(piece.simulate_action(ComposedAction { rotation: 0, shift: 4 })));
    // one row up the bar is still on the board, the origin is not
    let mut high = piece;
    high.position = (3, 24);
    assert!(board.is_valid_state(high));
    high.position = (3, 25);
    assert!(!board.is_valid_state(high));
    let mut low = piece;
    low.position = (3, 1);
    assert!(board.is_valid_state(low));
    low.position = (3, 0);
    assert!(!board.is_valid_state(low));
}

#[test]
fn is_valid_state_checks_collisions() {
    let mut board = Board::empty();
    board.state[22][4] = 1;
    let piece = Piece::new_from_idx(5);
    assert!(!board.is_valid_state(piece));
    assert!(board.is_valid_state(piece.simulate_next(SingularAction::Down)));
    assert!(board.is_valid_state(piece.simulate_next(SingularAction::Rotate)));
    board.state[20][5] = 1;
    assert!(!board.is_valid_state(piece.simulate_next(SingularAction::Rotate)));
}

#[test]
fn is_valid_state_far_from_the_board() {
    let board = Board::empty();
    let mut piece = Piece::new_from_idx(1);
    piece.position = (i32::MAX, i32::MIN);
    assert!(!board.is_valid_state(piece));
    piece.position = (i32::MIN, i32::MAX);
    assert!(!board.is_valid_state(piece));
}

#[test]
fn fill_rect_writes_only_set_cells() {
    let mut board = Board::empty();
    board.state[5][4] = 9;
    let content = [[0, 2, 0, 0], [2, 2, 0, 0], [0, 0, 0, 0], [0, 0, 0, 0]];
    let filled = board.fill_rect((3, 6), content);
    let mut expected = Board::empty();
    expected.state[5][4] = 2;
    expected.state[6][4] = 2;
    expected.state[5][3] = 2;
    assert_eq!(filled, expected);
    // the board itself is left as it was
    assert_eq!(board.state[5][4], 9);
    assert_eq!(board.state[6][4], 0);
}

#[test]
fn fill_rect_keeps_cells_under_unset_mask_cells() {
    let mut board = Board::empty();
    board.state[6][3] = 7;
    let content = [[0, 2, 0, 0], [2, 2, 0, 0], [0, 0, 0, 0], [0, 0, 0, 0]];
    let filled = board.fill_rect((3, 6), content);
    assert_eq!(filled.state[6][3], 7);
    assert_eq!(filled.state[6][4], 2);
}

#[test]
fn fill_rect_accepts_an_origin_off_the_board() {
    let board = Board::empty();
    let content = [[0, 0, 0, 0], [0, 0, 0, 0], [0, 0, 0, 0], [0, 0, 0, 3]];
    let filled = board.fill_rect((-3, 26), content);
    let mut expected = Board::empty();
    expected.state[23][0] = 3;
    assert_eq!(filled, expected);
}

#[test]
fn integrate_piece_writes_the_piece_tag() {
    let board = Board::empty();
    let mut piece = Piece::new_from_idx(7);
    piece.position = (4, 1);
    let locked = board.integrate_piece(piece);
    let mut expected = Board::empty();
    expected.state[1][5] = 7;
    expected.state[0][4] = 7;
    expected.state[0][5] = 7;
    expected.state[0][6] = 7;
    assert_eq!(locked, expected);
    assert_eq!(board.simulate_board(piece), expected);
}

#[test]
fn hard_drop_lands_on_the_floor() {
    let board = Board::empty();
    let piece = Piece::new_from_idx(5);
    let landed = board.hard_drop(piece);
    assert_eq!(landed.position, (3, 1));
    assert_eq!(landed.rotation, 0);
    assert_eq!(landed.shape, piece.shape);
    assert!(board.is_valid_state(landed));
    assert!(!board.is_valid_state(landed.simulate_next(SingularAction::Down)));
    let upright = board.hard_drop(piece.simulate_next(SingularAction::Rotate));
    assert_eq!(upright.position, (3, 3));
}

#[test]
fn hard_drop_lands_on_the_stack() {
    let mut board = Board::empty();
    board.state[0][4] = 1;
    board.state[1][4] = 1;
    board.state[2][4] = 1;
    let landed = board.hard_drop(Piece::new_from_idx(5));
    assert_eq!(landed.position, (3, 4));
    // the piece does not pass through cells to reach room below them
    board.state[10][6] = 2;
    let landed = board.hard_drop(Piece::new_from_idx(5));
    assert_eq!(landed.position, (3, 12));
}

#[test]
fn hard_drop_is_idempotent() {
    let mut board = Board::empty();
    board.state[0][0] = 1;
    board.state[3][7] = 1;
    for id in 1u8..8 {
        for rotation in 0..4 {
            for shift in -2..3 {
                let piece = Piece::new_from_idx(id).simulate_action(ComposedAction { rotation, shift });
                assert!(board.is_valid_state(piece));
                let landed = board.hard_drop(piece);
                assert!(board.is_valid_state(landed));
                assert_eq!(board.hard_drop(landed), landed);
            }
        }
    }
}

#[test]
fn hard_drop_of_a_blocked_piece_stays() {
    let mut board = Board::empty();
    board.state[21][3] = 1;
    let piece = Piece::new_from_idx(5);
    assert_eq!(board.hard_drop(piece), piece);
}

#[test]
fn remove_full_rows_without_full_rows() {
    let mut board = Board::empty();
    board.state[0] = [1, 1, 1, 1, 1, 1, 1, 1, 1, 0];
    board.state[1][2] = 4;
    let (cleared, removed) = board.remove_full_rows();
    assert_eq!(removed, 0);
    assert_eq!(cleared, board);
}

#[test]
fn remove_full_rows_moves_the_rows_above_down() {
    let mut board = Board::empty();
    board.state[0] = [1; 10];
    board.state[1][0] = 3;
    board.state[2] = [2; 10];
    board.state[3][5] = 2;
    let (cleared, removed) = board.remove_full_rows();
    assert_eq!(removed, 2);
    let mut expected = Board::empty();
    expected.state[0][0] = 3;
    expected.state[1][5] = 2;
    assert_eq!(cleared, expected);
}

#[test]
fn remove_full_rows_four_at_once() {
    let mut board = Board::empty();
    for y in 0..4 {
        board.state[y] = [5; 10];
    }
    board.state[4][9] = 6;
    let (cleared, removed) = board.remove_full_rows();
    assert_eq!(removed, 4);
    let mut expected = Board::empty();
    expected.state[0][9] = 6;
    assert_eq!(cleared, expected);
}

#[test]
fn remove_full_rows_leaves_no_full_row() {
    let mut board = Board::empty();
    for y in 0..23 {
        if y % 3 != 1 {
            board.state[y] = [7; 10];
        } else {
            board.state[y][y % 10] = 1;
        }
    }
    let full_before = board.state.iter().filter(|row| is_row_full(row)).count();
    let (cleared, removed) = board.remove_full_rows();
    assert_eq!(removed as usize, full_before);
    assert_eq!(removed, 15);
    assert!(cleared.state.iter().all(|row| !is_row_full(row)));
    // the surviving rows keep their order
    let survivors: Vec<[u8; 10]> =
        board.state[..23].iter().filter(|row| !is_row_full(row)).copied().collect();
    assert_eq!(&cleared.state[..survivors.len()], &survivors[..]);
}

#[test]
fn remove_full_rows_repeats_the_top_row() {
    let mut board = Board::empty();
    board.state[0] = [1; 10];
    board.state[23][4] = 2;
    let (cleared, removed) = board.remove_full_rows();
    assert_eq!(removed, 1);
    let mut expected = Board::empty();
    expected.state[22][4] = 2;
    expected.state[23][4] = 2;
    assert_eq!(cleared, expected);
}

#[test]
fn remove_full_rows_counts_a_full_top_row_and_keeps_it() {
    let mut board = Board::empty();
    board.state[23] = [3; 10];
    let (cleared, removed) = board.remove_full_rows();
    assert_eq!(removed, 1);
    assert_eq!(cleared, board);
}

#[test]
fn completing_the_bottom_row_clears_it() {
    let board = Board::empty();
    // nine of the ten cells of the bottom row
    let mut bar = Piece::new_from_idx(5);
    bar.position = (0, 1);
    let board = board.integrate_piece(bar);
    bar.position = (4, 1);
    let board = board.integrate_piece(bar);
    let board = board.fill_rect((8, 0), single_cell(3));
    assert_eq!(board.state[0], [5, 5, 5, 5, 5, 5, 5, 5, 3, 0]);
    let (unchanged, removed) = board.remove_full_rows();
    assert_eq!(removed, 0);
    assert_eq!(unchanged, board);
    // the tenth cell
    let board = board.fill_rect((9, 0), single_cell(4));
    assert!(is_row_full(&board.state[0]));
    let (cleared, removed) = board.remove_full_rows();
    assert_eq!(removed, 1);
    assert!(is_empty_board(&cleared));
}
