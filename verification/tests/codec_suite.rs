use connect4::board::{Board, GameResult, GameStatus, Player, Slot};

fn played(moves: &[u8]) -> Board {
    let mut e = Board::empty_board();
    for k in moves {
        e.play_move(*k);
    }
    e
}

#[test]
fn empty_board_serializes_to_zero_words() {
    let e = Board::empty_board();
    assert_eq!(e.serialize(), (0u64, 0u64));
}

#[test]
fn one_move_wire_words_are_exact() {
    // A first-player piece at the bottom of column 0 sets bit 0 of the
    // red word; the turn passes to the second player, so bit 49 is set
    // in both words.
    let b = played(&[0]);
    let (red, blue) = b.serialize();
    assert_eq!(red, 1u64 + (1u64 << 49));
    assert_eq!(blue, 1u64 << 49);
}

#[test]
fn round_trip_mid_game() {
    let b = played(&[3, 3, 2, 1, 3, 5, 2]);
    let w = b.serialize();
    let b2 = Board::unserialize(w);
    assert_eq!(b2, b);
    assert_eq!(b2.game_status(), b.game_status());
    for x in 0..7 {
        for y in 0..6 {
            assert_eq!(b2.slot_at(x, y), b.slot_at(x, y));
        }
    }
}

#[test]
fn round_trip_won_game() {
    let b = played(&[3, 3, 2, 1, 3, 5, 2, 2, 4, 3, 1, 2, 5, 1, 1, 3, 5, 5, 5, 2, 1, 2]);
    assert_eq!(b.game_status(), GameStatus::GameOver(GameResult::Winner(Player::Blue)));
    let (red, blue) = b.serialize();
    // The game-over mark sits on the winner's word alone.
    assert_eq!((red >> 50) & 1, 0);
    assert_eq!((blue >> 50) & 1, 1);
    let b2 = Board::unserialize((red, blue));
    assert_eq!(b2, b);
}

#[test]
fn round_trip_tied_game() {
    let b = played(&[
        4, 3, 3, 3, 3, 4, 5, 4, 4, 0, 3, 0, 3, 4, 2, 4, 1, 0, 0, 0, 0, 1, 1, 1, 1, 1, 2, 2, 2, 5,
        5, 5, 6, 6, 6, 5, 6, 5, 2, 2, 6, 6,
    ]);
    assert_eq!(b.game_status(), GameStatus::GameOver(GameResult::Tie));
    let (red, blue) = b.serialize();
    // A tie marks both words.
    assert_eq!((red >> 50) & 1, 1);
    assert_eq!((blue >> 50) & 1, 1);
    assert_eq!(Board::unserialize((red, blue)), b);
}

#[test]
fn unserialize_reads_any_words() {
    // A red word with every bit set reads as full red columns, the
    // second player to move, and a red win already recorded.
    let b = Board::unserialize((u64::MAX, 0));
    assert_eq!(b.game_status(), GameStatus::GameOver(GameResult::Winner(Player::Red)));
    for x in 0..7 {
        for y in 0..6 {
            assert_eq!(b.slot_at(x, y), Slot::Piece(Player::Red));
        }
    }
    assert!(!b.is_move_legal(0));
}
