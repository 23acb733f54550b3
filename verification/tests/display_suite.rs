use connect4::board::Board;

#[test]
fn empty_board_renders_exactly() {
    let e = Board::empty_board();
    let s = e.display("R", "B", ".", "|", "[", "]", "\n");
    let mut expected = String::new();
    for _ in 0..6 {
        expected.push_str("\n[.|.|.|.|.|.|.]");
    }
    expected.push_str("\n");
    assert_eq!(s, expected);
}

#[test]
fn pieces_appear_bottom_left_first() {
    let mut b = Board::empty_board();
    b.play_move(2);
    b.play_move(3);
    let s = b.display("R", "B", ".", "", "", "\n", "");
    // Six lines, top row first; the bottom row carries the two pieces.
    let expected = ".......\n\
                    .......\n\
                    .......\n\
                    .......\n\
                    .......\n\
                    ..RB...\n";
    assert_eq!(s, expected);
}

#[test]
fn separators_are_callers_choice() {
    let e = Board::empty_board();
    let s = e.display("x", "o", "_", "", "<", ">", "#");
    let mut expected = String::new();
    for _ in 0..6 {
        expected.push_str("#<_______>");
    }
    expected.push_str("#");
    assert_eq!(s, expected);
}
