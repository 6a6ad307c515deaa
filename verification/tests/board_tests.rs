use tic_tac_toe_rs::board::{Board, ElementShape, MoveError};

#[test]
fn test_normal_game() {
    let mut board = Board::new();
    assert_eq!(board.get_all_valid_moves(), vec![0, 1, 2, 3, 4, 5, 6, 7, 8]);
    /*
     *  X  O  X
     *  O  X  O
     *  X [7][8]
     *  */
    for i in 0..6 {
        let e = board.set_element(i);
        assert!(e.is_ok());
        assert!(board.get_winner().is_none());
        assert!(board.winning_is_possible());
        assert_eq!(board.get_all_valid_moves(), Vec::from_iter(i + 1..=8))
    }
    assert!(board.set_element(6).is_ok());
    assert_eq!(board.get_winner().unwrap(), ElementShape::X);
}

#[test]
fn new_game_is_winnable() {
    let board = Board::new();
    assert!(board.winning_is_possible());
}

#[test]
fn create_board_from_move_seq() {
    let seq: Vec<usize> = vec![0, 1, 2, 3, 4, 5];
    let mut board = Board::from_move_sequence(&seq).unwrap();
    assert!(board.set_element(6).is_ok());
    assert_eq!(board.get_winner().unwrap(), ElementShape::X);
}

#[test]
fn win_in_one_move() {
    let seq: Vec<usize> = vec![0, 1, 2, 3, 4, 5];
    let mut board = Board::from_move_sequence(&seq).unwrap();
    assert_eq!(board.calculate_best_move(), 6);
    /*
     * winning move is 6
     *  X  O  X
     *  O  X  O
     * [6][7][8]
     *  */
    board.set_element(7).unwrap();
    board.set_element(8).unwrap();
    assert_eq!(board.calculate_best_move(), 6)
}

#[test]
fn evaluate_win_in_one_move() {
    let seq: Vec<usize> = vec![0, 1, 2, 3, 4, 5];
    let mut board = Board::from_move_sequence(&seq).unwrap();
    assert_eq!(board.evaluate_move(6), ElementShape::X);
    assert_eq!(board.evaluate_move(7), ElementShape::X);
    assert_eq!(board.evaluate_move(8), ElementShape::X);
    board.set_element(7).unwrap();
    assert_eq!(board.evaluate_move(6), ElementShape::X);
}

#[test]
fn predict_loss_from_two_moves() {
    let seq: Vec<usize> = vec![0, 1, 4];
    let board = Board::from_move_sequence(&seq).unwrap();
    assert_eq!(board.evaluate_move(3), ElementShape::X);
    assert_eq!(board.evaluate_move(8), ElementShape::X);
    /*
     * best move is 8 to avoid losing
     * but game is lost anyways
     *  X  O [2]
     * [3] X [5]
     * [6][7][8]
     *  */
}

#[test]
fn win_from_opp_misplay() {
    let seq: Vec<usize> = vec![4, 0, 5, 3, 7];
    let board = Board::from_move_sequence(&seq).unwrap();
    /*
     * best move is 8 to avoid losing
     * but game is lost anyways
     *  O [1][2]
     *  O  X  X
     * [6] X [8]
     *  */
    assert_eq!(board.evaluate_move(6), ElementShape::O);
    assert_eq!(board.evaluate_move(1), ElementShape::O);
    assert_eq!(board.get_cur_player(), ElementShape::O);
    // the following fails because it also wins from [1]
    //assert_eq!(board.calculate_best_move(), 6);
}

#[test]
fn perfect_game_always_draw() {
    let board = Board::new();
    for valid_move in board.get_all_valid_moves() {
        assert_eq!(board.evaluate_move(valid_move), ElementShape::Empty);
    }
}

#[test]
fn legal_moves_and_occupied_cells_sum_to_nine() {
    let board = Board::new();
    assert_eq!(board.get_all_valid_moves().len(), 9);
    let seq: Vec<usize> = vec![0, 1, 4];
    let board = Board::from_move_sequence(&seq).unwrap();
    assert_eq!(board.get_all_valid_moves().len() + 3, 9);
    let seq: Vec<usize> = vec![0, 1, 2, 3, 4, 5];
    let board = Board::from_move_sequence(&seq).unwrap();
    assert_eq!(board.get_all_valid_moves().len() + 6, 9);
}

#[test]
fn apply_then_undo_restores_position() {
    let seq: Vec<usize> = vec![0, 1, 4];
    let mut board = Board::from_move_sequence(&seq).unwrap();
    let moves_before = board.get_all_valid_moves();
    let player_before = board.get_cur_player();
    let text_before = board.state_str();
    board.set_element(5).unwrap();
    board.undo_move(5);
    assert_eq!(board.get_all_valid_moves(), moves_before);
    assert_eq!(board.get_cur_player(), player_before);
    assert_eq!(board.state_str(), text_before);
}

#[test]
fn rejects_out_of_range_and_occupied() {
    let mut board = Board::new();
    assert_eq!(board.set_element(9), Err(MoveError::OutOfRange));
    assert_eq!(board.set_element(0), Ok(()));
    assert_eq!(board.set_element(0), Err(MoveError::CellOccupied));
    assert_eq!(board.make_move(42), Err(MoveError::OutOfRange));
    assert_eq!(board.make_move(0), Err(MoveError::CellOccupied));
    // a rejected move leaves the board unchanged
    assert_eq!(board.get_all_valid_moves(), vec![1, 2, 3, 4, 5, 6, 7, 8]);
    assert_eq!(board.get_cur_player(), ElementShape::O);
}

#[test]
fn make_move_reports_the_verdict() {
    let mut board = Board::new();
    assert_eq!(board.make_move(0), Ok(None));
    let seq: Vec<usize> = vec![0, 1, 2, 3, 4, 5];
    let mut board = Board::from_move_sequence(&seq).unwrap();
    assert_eq!(board.make_move(6), Ok(Some(ElementShape::X)));
}

#[test]
fn drawn_before_the_board_is_full() {
    /*
     * no three-in-a-row is reachable any more, with two cells still empty
     *  X  X  O
     *  O  O  X
     *  X [7][8]
     *  */
    let seq: Vec<usize> = vec![0, 2, 1, 3, 5, 4, 6];
    let board = Board::from_move_sequence(&seq).unwrap();
    assert!(!board.is_full());
    assert!(!board.winning_is_possible());
    assert_eq!(board.get_winner(), Some(ElementShape::Empty));
}

#[test]
fn computer_takes_the_winning_move() {
    let seq: Vec<usize> = vec![0, 1, 2, 3, 4, 5];
    let mut board = Board::from_move_sequence(&seq).unwrap();
    board.play_computer_move();
    assert_eq!(board.get_winner(), Some(ElementShape::X));
    assert_eq!(board.get_all_valid_moves(), vec![7, 8]);
}

#[test]
fn board_state_str_renders_cells_and_rows() {
    let board = Board::new();
    assert_eq!(board.state_str(), "[0][1][2]\n[3][4][5]\n[6][7][8]\n");
    let seq: Vec<usize> = vec![0, 1];
    let board = Board::from_move_sequence(&seq).unwrap();
    assert_eq!(board.state_str(), " X  O [2]\n[3][4][5]\n[6][7][8]\n");
}

#[test]
fn board_is_full_only_when_no_cell_is_empty() {
    let mut board = Board::new();
    assert!(!board.is_full());
    for i in 0..9 {
        assert!(board.set_element(i).is_ok());
    }
    assert!(board.is_full());
    // a full board always carries a verdict
    assert!(board.get_winner().is_some());
}

#[test]
fn marks_print_and_flip() {
    assert_eq!(ElementShape::X.value(), "X");
    assert_eq!(ElementShape::O.value(), "O");
    assert_eq!(ElementShape::Empty.value(), "");
    assert_eq!(ElementShape::X.opposite(), ElementShape::O);
    assert_eq!(ElementShape::O.opposite(), ElementShape::X);
    assert_eq!(ElementShape::Empty.opposite(), ElementShape::Empty);
    assert_eq!(ElementShape::default(), ElementShape::Empty);
    let board = Board::default();
    assert_eq!(board.get_cur_player(), ElementShape::X);
}

#[test]
fn from_move_sequence_propagates_the_first_error() {
    let seq: Vec<usize> = vec![0, 9];
    assert!(matches!(
        Board::from_move_sequence(&seq),
        Err(MoveError::OutOfRange)
    ));
    let seq: Vec<usize> = vec![0, 0];
    assert!(matches!(
        Board::from_move_sequence(&seq),
        Err(MoveError::CellOccupied)
    ));
}
