use connect4::board::Board;
use connect4::persistency::{
    data_row_to_match, interaction_player, resolve_found_ids, ComputerMatch, DatabaseRow,
    HumanMatch, NotCompletedReason, OngoingMatch,
};
use connect4::protocol::{
    check_player_turn_vs_bot, check_player_turn_vs_human, decide_random_order, parse_request,
    HelpTopic, PlayOrder, Request,
};

const CHANNEL: u64 = 900;
const AUTHOR: u64 = 11;
const BOT: u64 = 77;

fn parse(content: &str, mention: Option<u64>) -> Request {
    parse_request(content, CHANNEL, AUTHOR, mention, BOT)
}

#[test]
fn parse_ignores_other_chatter() {
    assert_eq!(parse("hello there", None), Request::Ignore);
    assert_eq!(parse("!c4", None), Request::Ignore);
    assert_eq!(parse("c4 play 3", None), Request::Ignore);
}

#[test]
fn parse_play_moves() {
    assert_eq!(parse("!c4 play 3", None), Request::PlayMove(CHANNEL, AUTHOR, 2));
    assert_eq!(parse("!c4 play 1", None), Request::PlayMove(CHANNEL, AUTHOR, 0));
    assert_eq!(parse("!c4 play 7", None), Request::PlayMove(CHANNEL, AUTHOR, 6));
    assert_eq!(parse("!c4 play  5  ", None), Request::PlayMove(CHANNEL, AUTHOR, 4));
    assert_eq!(parse("!c4 play +4", None), Request::PlayMove(CHANNEL, AUTHOR, 3));
}

#[test]
fn parse_play_out_of_range_or_garbled() {
    assert_eq!(parse("!c4 play 0", None), Request::Help(HelpTopic::Play));
    assert_eq!(parse("!c4 play 8", None), Request::Help(HelpTopic::Play));
    assert_eq!(parse("!c4 play 300", None), Request::Help(HelpTopic::Play));
    assert_eq!(parse("!c4 play 99999999999", None), Request::Help(HelpTopic::Play));
    assert_eq!(parse("!c4 play two", None), Request::Help(HelpTopic::Play));
    assert_eq!(parse("!c4 play ", None), Request::Help(HelpTopic::Play));
    assert_eq!(parse("!c4 play +", None), Request::Help(HelpTopic::Play));
    assert_eq!(parse("!c4 play -3", None), Request::Help(HelpTopic::Play));
}

#[test]
fn parse_challenges() {
    assert_eq!(
        parse("!c4 challenge @someone", Some(33)),
        Request::Challenge(CHANNEL, AUTHOR, 33, PlayOrder::GoFirst)
    );
    assert_eq!(
        parse("!c4 challenge @bot", Some(BOT)),
        Request::ChallengeBot(CHANNEL, AUTHOR, 5, PlayOrder::Random)
    );
    assert_eq!(parse("!c4 challenge", None), Request::Help(HelpTopic::Challenge));
}

#[test]
fn parse_resign_see_and_help() {
    assert_eq!(parse("!c4 resign", None), Request::Resign(CHANNEL, AUTHOR));
    assert_eq!(parse("!c4 see", None), Request::SeeGame(CHANNEL, AUTHOR));
    assert_eq!(parse("!c4 dance", None), Request::Help(HelpTopic::General));
}

#[test]
fn decide_order_keeps_definite_choices() {
    assert_eq!(decide_random_order(PlayOrder::GoFirst), PlayOrder::GoFirst);
    assert_eq!(decide_random_order(PlayOrder::GoSecond), PlayOrder::GoSecond);
    let settled = decide_random_order(PlayOrder::Random);
    assert!(settled == PlayOrder::GoFirst || settled == PlayOrder::GoSecond);
}

fn human_match() -> HumanMatch {
    HumanMatch {
        match_id: 1,
        server_id: CHANNEL,
        red_player_id: 11,
        blue_player_id: 22,
        board: Board::empty_board(),
    }
}

fn computer_match(player_is_red: bool) -> ComputerMatch {
    ComputerMatch {
        match_id: 2,
        server_id: CHANNEL,
        player_id: 11,
        player_is_red,
        ai_level: 5,
        board: Board::empty_board(),
    }
}

#[test]
fn turn_checks_follow_the_active_colour() {
    let mut h = human_match();
    assert!(check_player_turn_vs_human(&h, 11));
    assert!(!check_player_turn_vs_human(&h, 22));
    h.board.play_move(3);
    assert!(!check_player_turn_vs_human(&h, 11));
    assert!(check_player_turn_vs_human(&h, 22));

    let mut c = computer_match(true);
    assert!(check_player_turn_vs_bot(&c, 11));
    c.board.play_move(3);
    assert!(!check_player_turn_vs_bot(&c, 11));
    let c2 = computer_match(false);
    assert!(!check_player_turn_vs_bot(&c2, 11));
}

#[test]
fn interaction_goes_to_whoever_moves() {
    let h = human_match();
    assert_eq!(interaction_player(&OngoingMatch::HumanMatch(h)), Ok(11));
    let mut h2 = human_match();
    h2.board.play_move(0);
    assert_eq!(interaction_player(&OngoingMatch::HumanMatch(h2)), Ok(22));
    let c = computer_match(false);
    assert_eq!(interaction_player(&OngoingMatch::ComputerMatch(c)), Ok(11));
}

#[test]
fn interaction_refused_after_game_over() {
    let mut h = human_match();
    for k in [3, 3, 2, 1, 3, 5, 2, 2, 4, 3, 1, 2, 5, 1, 1, 3, 5, 5, 5, 2, 1, 2] {
        h.board.play_move(k);
    }
    assert_eq!(
        interaction_player(&OngoingMatch::HumanMatch(h)),
        Err(NotCompletedReason::InteractionRequestedForGameOver)
    );
}

#[test]
fn created_match_ids_resolve_only_when_unique() {
    assert_eq!(
        resolve_found_ids(&vec![], NotCompletedReason::RedAlreadyPlaying),
        Err(NotCompletedReason::UnrecoverableError)
    );
    assert_eq!(resolve_found_ids(&vec![41], NotCompletedReason::RedAlreadyPlaying), Ok(41));
    assert_eq!(
        resolve_found_ids(&vec![41, 52], NotCompletedReason::RedAlreadyPlaying),
        Err(NotCompletedReason::RedAlreadyPlaying)
    );
    assert_eq!(
        resolve_found_ids(&vec![41, 52], NotCompletedReason::BlueAlreadyPlaying),
        Err(NotCompletedReason::BlueAlreadyPlaying)
    );
    assert_eq!(
        resolve_found_ids(&vec![41, 52, 63], NotCompletedReason::PlayerAlreadyPlaying),
        Err(NotCompletedReason::PlayerAlreadyPlaying)
    );
}

#[test]
fn rows_with_a_bot_marker_become_computer_matches() {
    let row = DatabaseRow {
        match_id: 7,
        server_id: 100,
        red_player_id: -3,
        blue_player_id: 42,
        red_pieces: 0,
        blue_pieces: 0,
    };
    match data_row_to_match(&row) {
        OngoingMatch::ComputerMatch(c) => {
            assert_eq!(c.match_id, 7);
            assert_eq!(c.server_id, 100);
            assert_eq!(c.player_id, 42);
            assert!(!c.player_is_red);
            assert_eq!(c.ai_level, 3);
        }
        _ => panic!("expected a computer match"),
    }
    let row2 = DatabaseRow {
        match_id: 8,
        server_id: 100,
        red_player_id: 42,
        blue_player_id: -5,
        red_pieces: 0,
        blue_pieces: 0,
    };
    match data_row_to_match(&row2) {
        OngoingMatch::ComputerMatch(c) => {
            assert_eq!(c.player_id, 42);
            assert!(c.player_is_red);
            assert_eq!(c.ai_level, 5);
        }
        _ => panic!("expected a computer match"),
    }
}

#[test]
fn rows_without_markers_stay_human() {
    let row = DatabaseRow {
        match_id: 9,
        server_id: 100,
        red_player_id: 42,
        blue_player_id: 43,
        red_pieces: 0,
        blue_pieces: 0,
    };
    let m = data_row_to_match(&row);
    assert_eq!(m.get_id(), 9);
    assert_eq!(m.get_server_id(), 100);
    match m {
        OngoingMatch::HumanMatch(h) => {
            assert_eq!(h.red_player_id, 42);
            assert_eq!(h.blue_player_id, 43);
        }
        _ => panic!("expected a human match"),
    }
    // A stored -10 is past the marker range and reads as a person.
    let row2 = DatabaseRow {
        match_id: 10,
        server_id: 100,
        red_player_id: -10,
        blue_player_id: 43,
        red_pieces: 0,
        blue_pieces: 0,
    };
    assert!(matches!(data_row_to_match(&row2), OngoingMatch::HumanMatch(_)));
}
