use tic_tac_toe_rs::table::Table;

#[test]
fn table_starts_empty_and_renders() {
    let table = Table::new();
    assert!(!table.is_full());
    assert_eq!(table.get_winner(), None);
    assert_eq!(table.state_str(), "[0][1][2]\n[3][4][5]\n[6][7][8]\n");
}

#[test]
fn table_set_element_alternates_and_rejects_taken_cells() {
    let mut table = Table::new();
    assert_eq!(table.set_element(4), Ok(()));
    assert_eq!(table.set_element(4), Err(()));
    assert_eq!(table.set_element(0), Ok(()));
    assert_eq!(table.state_str(), " O [1][2]\n[3] X [5]\n[6][7][8]\n");
}

#[test]
fn table_detects_a_row_winner() {
    let mut table = Table::new();
    // X: 0, 1, 2 — O: 3, 4
    for i in [0, 3, 1, 4, 2] {
        assert_eq!(table.set_element(i), Ok(()));
    }
    assert_eq!(table.get_winner(), Some(String::from("X")));
    assert!(!table.is_full());
}

#[test]
fn table_full_after_nine_moves() {
    let mut table = Table::new();
    for i in 0..9 {
        assert_eq!(table.set_element(i), Ok(()));
    }
    assert!(table.is_full());
}
