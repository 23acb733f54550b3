//! The chat-command protocol around the game: the requests a message
//! can carry, the responses the application answers with, and the
//! parsing and turn-checking rules. Network identifiers (channels,
//! users, messages) appear here only as plain numbers; the transport
//! lives in the surrounding application.

use vstd::prelude::*;
use vstd::string::StrSliceExecFns;

use crate::board::{GameStatus, Player};
use crate::persistency::{ComputerMatch, HumanMatch, OngoingMatch};

verus! {

#[derive(Debug, PartialEq, Eq, Clone, Copy, Structural)]
pub struct MatchId(pub u64);

#[derive(Debug, PartialEq, Eq, Clone, Copy, Structural)]
pub enum HelpTopic {
    General,
    Challenge,
    Play,
}

#[derive(Debug, PartialEq, Eq, Clone, Copy, Structural)]
pub enum PlayOrder {
    GoFirst,
    GoSecond,
    Random,
}

#[derive(Debug, PartialEq, Eq, Clone, Copy, Structural)]
pub enum UserError {
    PlayerAlreadyPlaying,
    PlayerNotPlaying,
    NotYourTurn,
    IllegalMove,
}

/// What a chat message asks of the system. Channel, user and message
/// identifiers are carried as plain numbers.
#[derive(Debug, PartialEq, Eq, Structural)]
pub enum Request {
    Ignore,
    Help(HelpTopic),
    Challenge(u64, u64, u64, PlayOrder),
    ChallengeBot(u64, u64, u8, PlayOrder),
    PlayMove(u64, u64, u8),
    RespondToInteraction(u64, u64, u8),
    SeeGame(u64, u64),
    Resign(u64, u64),
}

/// What the system answers with.
#[derive(Debug)]
pub enum Response {
    ShowGame(OngoingMatch, bool, Option<u8>),
    ShowHelp(HelpTopic),
    ShowError(u64, UserError),
    BotPlaysMove(MatchId),
}

/// `p` is a prefix of `s`.
pub open spec fn seq_starts_with(s: Seq<char>, p: Seq<char>) -> bool {
    p.len() <= s.len() && s.subrange(0, p.len() as int) == p
}

fn starts_with_lit(s: &str, p: &str) -> (r: bool)
    ensures
        r == seq_starts_with(s@, p@),
{
    let pl = p.unicode_len();
    let sl = s.unicode_len();
    if sl < pl {
        return false;
    }
    let mut i: usize = 0;
    while i < pl
        invariant
            i <= pl,
            pl == p@.len(),
            sl == s@.len(),
            pl <= sl,
            forall|k: int| 0 <= k < i ==> s@[k] == p@[k],
        decreases pl - i,
    {
        if s.get_char(i) != p.get_char(i) {
            proof {
                if seq_starts_with(s@, p@) {
                    assert(s@.subrange(0, pl as int)[i as int] == s@[i as int]);
                }
            }
            return false;
        }
        i += 1;
    }
    proof {
        assert(s@.subrange(0, pl as int) =~= p@);
    }
    true
}

/// The whitespace stripped around a played number: the ASCII blanks.
pub open spec fn is_space(c: char) -> bool {
    c == ' ' || c == '\t' || c == '\r' || c == '\n'
}

pub open spec fn is_digit(c: char) -> bool {
    48 <= c as int <= 57
}

pub open spec fn all_digits(s: Seq<char>) -> bool {
    forall|i: int| 0 <= i < s.len() ==> is_digit(#[trigger] s[i])
}

/// The index of the first non-blank character at or after `i`.
pub open spec fn first_non_space(s: Seq<char>, i: int) -> int
    decreases s.len() - i,
{
    if i >= s.len() || i < 0 {
        i
    } else if is_space(s[i]) {
        first_non_space(s, i + 1)
    } else {
        i
    }
}

/// The end of the non-blank region when scanning down from `j`.
pub open spec fn end_non_space(s: Seq<char>, j: int) -> int
    decreases j,
{
    if j <= 0 {
        0
    } else if is_space(s[j - 1]) {
        end_non_space(s, j - 1)
    } else {
        j
    }
}

/// `s` with its surrounding ASCII blanks removed.
pub open spec fn trimmed(s: Seq<char>) -> Seq<char> {
    let a = first_non_space(s, 0);
    let b = end_non_space(s, s.len() as int);
    if a < b {
        s.subrange(a, b)
    } else {
        Seq::empty()
    }
}

/// The number a digit string denotes, most significant digit first.
pub open spec fn digits_value(s: Seq<char>) -> int
    decreases s.len(),
{
    if s.len() == 0 {
        0
    } else {
        digits_value(s.drop_last()) * 10 + (s.last() as int - 48)
    }
}

/// The way an unsigned decimal is read: optional plus sign, then one
/// or more digits, and the value must fit.
pub open spec fn parse_u8_spec(s: Seq<char>) -> Option<u8> {
    let t = trimmed(s);
    let body = if t.len() >= 1 && t[0] == '+' {
        t.skip(1)
    } else {
        t
    };
    if body.len() >= 1 && all_digits(body) && digits_value(body) <= 255 {
        Option::Some(digits_value(body) as u8)
    } else {
        Option::None
    }
}

proof fn lemma_end_all_spaces(s: Seq<char>, a: int)
    requires
        0 <= a <= s.len(),
        forall|j: int| 0 <= j < a ==> is_space(#[trigger] s[j]),
    ensures
        end_non_space(s, a) == 0,
    decreases a,
{
    if a > 0 {
        lemma_end_all_spaces(s, a - 1);
    }
}

proof fn lemma_digits_value_nonneg(s: Seq<char>)
    requires
        all_digits(s),
    ensures
        digits_value(s) >= 0,
    decreases s.len(),
{
    if s.len() > 0 {
        assert(all_digits(s.drop_last())) by {
            assert(forall|i: int|
                0 <= i < s.len() - 1 ==> #[trigger] s.drop_last()[i] == s[i]);
        }
        lemma_digits_value_nonneg(s.drop_last());
    }
}

/// A digit string is worth at least any of its prefixes.
proof fn lemma_digits_value_mono(s: Seq<char>, k: int)
    requires
        all_digits(s),
        0 <= k <= s.len(),
    ensures
        digits_value(s) >= digits_value(s.subrange(0, k)),
    decreases s.len(),
{
    if k == s.len() {
        assert(s.subrange(0, k) =~= s);
    } else {
        assert(all_digits(s.drop_last())) by {
            assert(forall|i: int|
                0 <= i < s.len() - 1 ==> #[trigger] s.drop_last()[i] == s[i]);
        }
        lemma_digits_value_mono(s.drop_last(), k);
        assert(s.drop_last().subrange(0, k) =~= s.subrange(0, k));
        lemma_digits_value_nonneg(s.drop_last());
        assert(digits_value(s) >= digits_value(s.drop_last()));
    }
}

fn is_space_char(c: char) -> (r: bool)
    ensures
        r == is_space(c),
{
    c == ' ' || c == '\t' || c == '\r' || c == '\n'
}

/// Reads an unsigned decimal the way the standard number parser does,
/// after stripping surrounding ASCII blanks.
#[verifier::loop_isolation(false)]
fn parse_u8_str(s: &str) -> (r: Option<u8>)
    ensures
        r == parse_u8_spec(s@),
{
    let n = s.unicode_len();
    let mut a: usize = 0;
    while a < n && is_space_char(s.get_char(a))
        invariant
            a <= n,
            n == s@.len(),
            first_non_space(s@, 0) == first_non_space(s@, a as int),
            forall|j: int| 0 <= j < a ==> is_space(#[trigger] s@[j]),
        decreases n - a,
    {
        a += 1;
    }
    proof {
        assert(first_non_space(s@, 0) == a as int);
    }
    let mut b: usize = n;
    while b > a && is_space_char(s.get_char(b - 1))
        invariant
            a <= b <= n,
            n == s@.len(),
            end_non_space(s@, n as int) == end_non_space(s@, b as int),
        decreases b,
    {
        b -= 1;
    }
    if a >= b {
        proof {
            lemma_end_all_spaces(s@, a as int);
            assert(trimmed(s@).len() == 0);
        }
        return Option::None;
    }
    proof {
        assert(end_non_space(s@, n as int) == b as int);
        assert(trimmed(s@) =~= s@.subrange(a as int, b as int));
    }
    let ghost t = trimmed(s@);
    // An optional plus sign opens the number.
    let mut i = a;
    if s.get_char(i) == '+' {
        i += 1;
    }
    let ghost body = s@.subrange(i as int, b as int);
    proof {
        assert(t == s@.subrange(a as int, b as int));
        assert(t[0] == s@[a as int]);
        if t[0] == '+' {
            assert(body =~= t.skip(1));
        } else {
            assert(body =~= t);
        }
    }
    if i >= b {
        return Option::None;
    }
    // First pass: every remaining character must be a digit.
    let mut k = i;
    while k < b
        invariant
            i <= k <= b <= n,
            n == s@.len(),
            forall|j: int| i <= j < k ==> is_digit(#[trigger] s@[j]),
        decreases b - k,
    {
        let c = s.get_char(k);
        let cv = c as u32;
        if cv < 48 || cv > 57 {
            proof {
                assert(body[(k - i) as int] == s@[k as int]);
                assert(!all_digits(body));
            }
            return Option::None;
        }
        k += 1;
    }
    proof {
        assert(all_digits(body)) by {
            assert(forall|j: int|
                0 <= j < body.len() ==> body[j] == s@[j + i] && is_digit(#[trigger] body[j]));
        }
    }
    // Second pass: accumulate, stopping once the value cannot fit.
    let mut v: u64 = 0;
    let mut k2 = i;
    while k2 < b
        invariant
            i <= k2 <= b <= n,
            n == s@.len(),
            all_digits(body),
            body == s@.subrange(i as int, b as int),
            v as int == digits_value(s@.subrange(i as int, k2 as int)),
            v <= 255,
        decreases b - k2,
    {
        let c = s.get_char(k2);
        let d = (c as u32) as u64;
        proof {
            assert(body[(k2 - i) as int] == s@[k2 as int]);
            assert(is_digit(s@[k2 as int]));
            assert(s@.subrange(i as int, (k2 + 1) as int).drop_last() =~= s@.subrange(
                i as int,
                k2 as int,
            ));
        }
        let v2 = v * 10 + (d - 48);
        if v2 > 255 {
            proof {
                lemma_digits_value_mono(body, (k2 + 1 - i) as int);
                assert(body.subrange(0, (k2 + 1 - i) as int) =~= s@.subrange(
                    i as int,
                    (k2 + 1) as int,
                ));
            }
            return Option::None;
        }
        v = v2;
        k2 += 1;
    }
    proof {
        assert(s@.subrange(i as int, b as int) =~= body);
    }
    Option::Some(v as u8)
}

/// What a message means. The bot being the first user mentioned turns
/// a challenge into a bot challenge at the default strength; a played
/// number must read as a decimal between one and seven.
pub open spec fn parse_spec(
    s: Seq<char>,
    channel_id: u64,
    author_id: u64,
    first_mention: Option<u64>,
    bot_id: u64,
) -> Request {
    if !seq_starts_with(s, "!c4 "@) {
        Request::Ignore
    } else if seq_starts_with(s, "!c4 challenge"@) {
        match first_mention {
            Option::Some(other) => if other == bot_id {
                Request::ChallengeBot(channel_id, author_id, 5, PlayOrder::Random)
            } else {
                Request::Challenge(channel_id, author_id, other, PlayOrder::GoFirst)
            },
            Option::None => Request::Help(HelpTopic::Challenge),
        }
    } else if seq_starts_with(s, "!c4 play "@) {
        match parse_u8_spec(s.skip("!c4 play "@.len() as int)) {
            Option::Some(np) => if 1 <= np <= 7 {
                Request::PlayMove(channel_id, author_id, (np - 1) as u8)
            } else {
                Request::Help(HelpTopic::Play)
            },
            Option::None => Request::Help(HelpTopic::Play),
        }
    } else if seq_starts_with(s, "!c4 resign"@) {
        Request::Resign(channel_id, author_id)
    } else if seq_starts_with(s, "!c4 see"@) {
        Request::SeeGame(channel_id, author_id)
    } else {
        Request::Help(HelpTopic::General)
    }
}

/// Parses one chat message into a request. The caller passes the
/// message text, where it came from, and the first user it mentions.
pub fn parse_request(
    content: &str,
    channel_id: u64,
    author_id: u64,
    first_mention: Option<u64>,
    bot_id: u64,
) -> (r: Request)
    ensures
        r == parse_spec(content@, channel_id, author_id, first_mention, bot_id),
{
    if !starts_with_lit(content, "!c4 ") {
        Request::Ignore
    } else if starts_with_lit(content, "!c4 challenge") {
        match first_mention {
            Option::Some(other) => if other == bot_id {
                Request::ChallengeBot(channel_id, author_id, 5, PlayOrder::Random)
            } else {
                Request::Challenge(channel_id, author_id, other, PlayOrder::GoFirst)
            },
            Option::None => Request::Help(HelpTopic::Challenge),
        }
    } else if starts_with_lit(content, "!c4 play ") {
        let pat = "!c4 play ";
        let rest = content.substring_char(pat.unicode_len(), content.unicode_len());
        proof {
            assert(rest@ =~= content@.skip(pat@.len() as int));
        }
        match parse_u8_str(rest) {
            Option::Some(np) => if 1 <= np && np <= 7 {
                Request::PlayMove(channel_id, author_id, np - 1)
            } else {
                Request::Help(HelpTopic::Play)
            },
            Option::None => Request::Help(HelpTopic::Play),
        }
    } else if starts_with_lit(content, "!c4 resign") {
        Request::Resign(channel_id, author_id)
    } else if starts_with_lit(content, "!c4 see") {
        Request::SeeGame(channel_id, author_id)
    } else {
        Request::Help(HelpTopic::General)
    }
}

/// Whether the person may move now in a match against the engine: it
/// must be their colour's turn.
pub fn check_player_turn_vs_bot(computer_match: &ComputerMatch, _player_id: u64) -> (r: bool)
    ensures
        r == (match computer_match.board@.status() {
            GameStatus::Turn(Player::Red) => computer_match.player_is_red,
            GameStatus::Turn(Player::Blue) => !computer_match.player_is_red,
            GameStatus::GameOver(_) => false,
        }),
{
    match computer_match.board.game_status() {
        GameStatus::Turn(Player::Red) => computer_match.player_is_red,
        GameStatus::Turn(Player::Blue) => !computer_match.player_is_red,
        _ => false,
    }
}

/// Whether the person may move now in a match between two people: they
/// must own the colour whose turn it is.
pub fn check_player_turn_vs_human(human_match: &HumanMatch, player_id: u64) -> (r: bool)
    ensures
        r == (match human_match.board@.status() {
            GameStatus::Turn(Player::Red) => player_id == human_match.red_player_id,
            GameStatus::Turn(Player::Blue) => player_id == human_match.blue_player_id,
            GameStatus::GameOver(_) => false,
        }),
{
    match human_match.board.game_status() {
        GameStatus::Turn(Player::Red) => player_id == human_match.red_player_id,
        GameStatus::Turn(Player::Blue) => player_id == human_match.blue_player_id,
        _ => false,
    }
}

/// Relies on rand::random: a coin toss; nothing is promised of the
/// outcome.
#[verifier::external_body]
fn coin_flip() -> bool {
    rand::random()
}

/// Settles a random play order by a coin toss; a definite order stands.
pub fn decide_random_order(play_order: PlayOrder) -> (r: PlayOrder)
    ensures
        r != PlayOrder::Random,
        play_order != PlayOrder::Random ==> r == play_order,
{
    match play_order {
        PlayOrder::Random => {
            if coin_flip() {
                PlayOrder::GoFirst
            } else {
                PlayOrder::GoSecond
            }
        },
        definite_order => definite_order,
    }
}

/// The rollout budget the engine is given at a strength level.
pub fn search_depth_at_level(_ai_level: u8) -> (r: u32)
    ensures
        r == 32768,
{
    32768
}

} // verus!
