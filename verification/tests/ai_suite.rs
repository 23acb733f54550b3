use connect4::board::Board;
use connect4::mcts::{ai_move, search_move};
use connect4::protocol::search_depth_at_level;

fn played(moves: &[u8]) -> Board {
    let mut e = Board::empty_board();
    for k in moves {
        e.play_move(*k);
    }
    e
}

#[test]
fn ai_rejects_zero_budget() {
    let e = Board::empty_board();
    assert_eq!(ai_move(&e, 0), Err(()));
}

#[test]
fn ai_rejects_finished_game() {
    let b = played(&[3, 3, 2, 1, 3, 5, 2, 2, 4, 3, 1, 2, 5, 1, 1, 3, 5, 5, 5, 2, 1, 2]);
    assert_eq!(ai_move(&b, 100), Err(()));
}

#[test]
fn ai_answers_with_a_legal_column() {
    let e = Board::empty_board();
    let m = ai_move(&e, 300).expect("a fresh board always offers a move");
    assert!(m < 7);
    assert!(e.is_move_legal(m));
}

#[test]
fn ai_finds_the_only_open_column() {
    // Six full columns in a pattern without any four-in-a-row, built
    // directly in the wire format; only column 6 stays open. Row r of
    // column c holds red when r lands in {0, 1, 4, 5} — flipped on odd
    // columns — which keeps every run at three or less.
    let mut red: u64 = 0;
    let mut blue: u64 = 0;
    for c in 0..6u64 {
        for r in 0..6u64 {
            let base_red = r == 0 || r == 1 || r == 4 || r == 5;
            let is_red = base_red != (c % 2 == 1);
            if is_red {
                red |= 1 << (7 * c + r);
            } else {
                blue |= 1 << (7 * c + r);
            }
        }
    }
    let b = Board::unserialize((red, blue));
    for c in 0..6 {
        assert!(!b.is_move_legal(c));
    }
    assert!(b.is_move_legal(6));
    assert_eq!(ai_move(&b, 64), Ok(6));
}

#[test]
fn search_move_signals_no_move() {
    assert_eq!(search_move(0, 0, 0), 7);
    // A finished game offers no legal column at any budget.
    let b = played(&[3, 3, 2, 1, 3, 5, 2, 2, 4, 3, 1, 2, 5, 1, 1, 3, 5, 5, 5, 2, 1, 2]);
    let (red, blue) = b.serialize();
    assert_eq!(search_move(red, blue, 50), 7);
}

#[test]
fn search_move_answers_on_open_board() {
    let m = search_move(0, 0, 100);
    assert!(m < 7);
}

#[test]
fn search_depth_is_fixed() {
    assert_eq!(search_depth_at_level(0), 32768);
    assert_eq!(search_depth_at_level(5), 32768);
    assert_eq!(search_depth_at_level(10), 32768);
}
