//! The match bookkeeping types that the persistence layer stores, and
//! the pure logic of that layer: turning a stored row into a match and
//! choosing whom an interaction prompt belongs to. The relational store
//! itself is driven by the surrounding application; this module only
//! decides, it never talks to a database.

use vstd::prelude::*;

use crate::board::{Board, BoardModel, GameStatus, Player};
use crate::codec::decode;

verus! {

/// Why a bookkeeping request could not be carried out.
#[derive(Debug, PartialEq, Eq, Clone, Copy, Structural)]
pub enum NotCompletedReason {
    RedAlreadyPlaying,
    BlueAlreadyPlaying,
    PlayerAlreadyPlaying,
    PlayerHasNoMatches,
    UnrecoverableError,
    InvalidAiLevel,
    InteractionRequestedForGameOver,
    NoSuchInteraction,
}

/// A running match between two people.
#[derive(Debug, PartialEq, Eq)]
pub struct HumanMatch {
    pub match_id: u64,
    pub server_id: u64,
    pub red_player_id: u64,
    pub blue_player_id: u64,
    pub board: Board,
}

/// A running match between one person and the engine.
#[derive(Debug, PartialEq, Eq)]
pub struct ComputerMatch {
    pub match_id: u64,
    pub server_id: u64,
    pub player_id: u64,
    pub player_is_red: bool,
    pub ai_level: u8,
    pub board: Board,
}

#[derive(Debug, PartialEq, Eq)]
pub enum OngoingMatch {
    HumanMatch(HumanMatch),
    ComputerMatch(ComputerMatch),
}

/// A reaction prompt that awaits one player's answer.
pub struct PendingInteraction {
    interaction_id: u64,
    match_id: u64,
    message_id: u64,
    player_id: u64,
}

/// One stored row of the match table, as the store hands it back.
pub struct DatabaseRow {
    pub match_id: i64,
    pub server_id: i64,
    pub red_player_id: i64,
    pub blue_player_id: i64,
    pub red_pieces: i64,
    pub blue_pieces: i64,
}

impl OngoingMatch {
    pub open spec fn id_spec(self) -> u64 {
        match self {
            OngoingMatch::HumanMatch(h) => h.match_id,
            OngoingMatch::ComputerMatch(c) => c.match_id,
        }
    }

    pub open spec fn server_id_spec(self) -> u64 {
        match self {
            OngoingMatch::HumanMatch(h) => h.server_id,
            OngoingMatch::ComputerMatch(c) => c.server_id,
        }
    }

    pub open spec fn board_spec(self) -> BoardModel {
        match self {
            OngoingMatch::HumanMatch(h) => h.board@,
            OngoingMatch::ComputerMatch(c) => c.board@,
        }
    }

    pub fn get_id(&self) -> (id: u64)
        ensures
            id == self.id_spec(),
    {
        match self {
            OngoingMatch::HumanMatch(h) => h.match_id,
            OngoingMatch::ComputerMatch(c) => c.match_id,
        }
    }

    pub fn get_server_id(&self) -> (id: u64)
        ensures
            id == self.server_id_spec(),
    {
        match self {
            OngoingMatch::HumanMatch(h) => h.server_id,
            OngoingMatch::ComputerMatch(c) => c.server_id,
        }
    }

    pub fn get_board(&self) -> (b: &Board)
        ensures
            b@ == self.board_spec(),
    {
        match self {
            OngoingMatch::HumanMatch(h) => &h.board,
            OngoingMatch::ComputerMatch(c) => &c.board,
        }
    }
}

/// A stored player column that actually marks the engine's side and
/// strength: a small negative number.
pub open spec fn is_bot_marker(id: i64) -> bool {
    -10 < id < 0
}

/// Reads one stored row back into a match. A bot marker in the red
/// column means the person plays second; one in the blue column means
/// the person plays first; neither means two people are playing.
pub fn data_row_to_match(row: &DatabaseRow) -> (m: OngoingMatch)
    ensures
        is_bot_marker(row.red_player_id) ==> (m matches OngoingMatch::ComputerMatch(c) && {
            &&& c.match_id == row.match_id as u64
            &&& c.server_id == row.server_id as u64
            &&& c.player_id == row.blue_player_id as u64
            &&& c.player_is_red == false
            &&& c.ai_level == (-row.red_player_id) as u8
            &&& c.board@ == decode(row.red_pieces as u64 as nat, row.blue_pieces as u64 as nat)
        }),
        !is_bot_marker(row.red_player_id) && is_bot_marker(row.blue_player_id)
            ==> (m matches OngoingMatch::ComputerMatch(c) && {
            &&& c.match_id == row.match_id as u64
            &&& c.server_id == row.server_id as u64
            &&& c.player_id == row.red_player_id as u64
            &&& c.player_is_red == true
            &&& c.ai_level == (-row.blue_player_id) as u8
            &&& c.board@ == decode(row.red_pieces as u64 as nat, row.blue_pieces as u64 as nat)
        }),
        !is_bot_marker(row.red_player_id) && !is_bot_marker(row.blue_player_id)
            ==> (m matches OngoingMatch::HumanMatch(h) && {
            &&& h.match_id == row.match_id as u64
            &&& h.server_id == row.server_id as u64
            &&& h.red_player_id == row.red_player_id as u64
            &&& h.blue_player_id == row.blue_player_id as u64
            &&& h.board@ == decode(row.red_pieces as u64 as nat, row.blue_pieces as u64 as nat)
        }),
        m.board_spec().wf(),
{
    let board = Board::unserialize((row.red_pieces as u64, row.blue_pieces as u64));
    if row.red_player_id < 0 && row.red_player_id > -10 {
        OngoingMatch::ComputerMatch(
            ComputerMatch {
                match_id: row.match_id as u64,
                server_id: row.server_id as u64,
                player_id: row.blue_player_id as u64,
                player_is_red: false,
                ai_level: (-row.red_player_id) as u8,
                board,
            },
        )
    } else if row.blue_player_id < 0 && row.blue_player_id > -10 {
        OngoingMatch::ComputerMatch(
            ComputerMatch {
                match_id: row.match_id as u64,
                server_id: row.server_id as u64,
                player_id: row.red_player_id as u64,
                player_is_red: true,
                ai_level: (-row.blue_player_id) as u8,
                board,
            },
        )
    } else {
        OngoingMatch::HumanMatch(
            HumanMatch {
                match_id: row.match_id as u64,
                server_id: row.server_id as u64,
                red_player_id: row.red_player_id as u64,
                blue_player_id: row.blue_player_id as u64,
                board,
            },
        )
    }
}

/// Interprets the match rows found for one player right after a match
/// was created: exactly one row is sound, none is an inconsistency,
/// and more than one means the player already sat in a match.
pub fn resolve_found_ids(ids: &Vec<i64>, conflict: NotCompletedReason) -> (r: Result<
    i64,
    NotCompletedReason,
>)
    ensures
        ids@.len() == 0 ==> r == Result::<i64, NotCompletedReason>::Err(
            NotCompletedReason::UnrecoverableError,
        ),
        ids@.len() == 1 ==> r == Result::<i64, NotCompletedReason>::Ok(ids@[0]),
        ids@.len() > 1 ==> r == Result::<i64, NotCompletedReason>::Err(conflict),
{
    if ids.len() == 0 {
        Result::Err(NotCompletedReason::UnrecoverableError)
    } else if ids.len() == 1 {
        Result::Ok(ids[0])
    } else {
        Result::Err(conflict)
    }
}

/// Whom an interaction prompt for this match must be addressed to: the
/// person whose turn it is. A finished game takes no prompt.
pub open spec fn interaction_player_spec(m: OngoingMatch) -> Result<u64, NotCompletedReason> {
    match m {
        OngoingMatch::HumanMatch(h) => match h.board@.status() {
            GameStatus::Turn(Player::Red) => Result::Ok(h.red_player_id),
            GameStatus::Turn(Player::Blue) => Result::Ok(h.blue_player_id),
            GameStatus::GameOver(_) => Result::Err(
                NotCompletedReason::InteractionRequestedForGameOver,
            ),
        },
        OngoingMatch::ComputerMatch(c) => match c.board@.status() {
            GameStatus::Turn(_) => Result::Ok(c.player_id),
            GameStatus::GameOver(_) => Result::Err(
                NotCompletedReason::InteractionRequestedForGameOver,
            ),
        },
    }
}

pub fn interaction_player(m: &OngoingMatch) -> (r: Result<u64, NotCompletedReason>)
    ensures
        r == interaction_player_spec(*m),
{
    match m {
        OngoingMatch::HumanMatch(h) => match h.board.game_status() {
            GameStatus::Turn(t) => if t == Player::Red {
                Result::Ok(h.red_player_id)
            } else {
                Result::Ok(h.blue_player_id)
            },
            GameStatus::GameOver(_) => Result::Err(
                NotCompletedReason::InteractionRequestedForGameOver,
            ),
        },
        OngoingMatch::ComputerMatch(c) => match c.board.game_status() {
            GameStatus::Turn(_) => Result::Ok(c.player_id),
            GameStatus::GameOver(_) => Result::Err(
                NotCompletedReason::InteractionRequestedForGameOver,
            ),
        },
    }
}

} // verus!
