//! The wire encoding of a board: two 64-bit words, one per player.
//! Each column owns seven consecutive bits (six playable cells and a
//! guard bit that stays clear), so a word is an eight-digit base-128
//! number: seven column digits and one flags digit. Bit 49 carries the
//! active player, identically in both words; bit 50 marks the end of
//! the game, on the winner's word alone or on both for a tie.

use vstd::prelude::*;
use vstd::arithmetic::power2::*;
use vstd::arithmetic::div_mod::*;
use vstd::arithmetic::mul::*;
use vstd::bits::*;

use crate::board::{Board, BoardModel, GameResult, Player};

verus! {

/// The low `n` cells of one column as a bit field for player `p`:
/// bit `y` is set when the cell at height `y` holds `p`'s piece.
pub open spec fn col_code_upto(col: Seq<Player>, p: Player, n: int) -> nat
    decreases n,
{
    if n <= 0 {
        0
    } else {
        col_code_upto(col, p, n - 1) + if col[n - 1] == p {
            pow2((n - 1) as nat)
        } else {
            0
        }
    }
}

pub open spec fn col_code(col: Seq<Player>, p: Player) -> nat {
    col_code_upto(col, p, col.len() as int)
}

/// The first `n` columns packed as base-128 digits.
pub open spec fn body_upto(cols: Seq<Seq<Player>>, p: Player, n: int) -> nat
    decreases n,
{
    if n <= 0 {
        0
    } else {
        body_upto(cols, p, n - 1) + col_code(cols[n - 1], p) * pow2((7 * (n - 1)) as nat)
    }
}

pub open spec fn turn_flag(m: BoardModel) -> nat {
    if m.turn == Player::Blue {
        1
    } else {
        0
    }
}

pub open spec fn over_flag(m: BoardModel, p: Player) -> nat {
    match m.result {
        Option::None => 0,
        Option::Some(GameResult::Tie) => 1,
        Option::Some(GameResult::Winner(w)) => if w == p {
            1
        } else {
            0
        },
    }
}

/// Player `p`'s whole wire word for board `m`.
pub open spec fn word_spec(m: BoardModel, p: Player) -> nat {
    body_upto(m.cols, p, 7) + turn_flag(m) * pow2(49) + over_flag(m, p) * pow2(50)
}

/// Bit `n` of the number `w`.
pub open spec fn nbit(w: nat, n: nat) -> bool {
    w / pow2(n) % 2 == 1
}

pub open spec fn occ_at(wr: nat, wb: nat, c: int, y: int) -> bool {
    nbit(wr, (7 * c + y) as nat) || nbit(wb, (7 * c + y) as nat)
}

/// The height of column `c` read off the two words: the first cell from
/// height `y` upward that neither word claims, capped at six.
pub open spec fn len_from(wr: nat, wb: nat, c: int, y: int) -> int
    decreases 6 - y,
{
    if y >= 6 {
        6
    } else if !occ_at(wr, wb, c, y) {
        y
    } else {
        len_from(wr, wb, c, y + 1)
    }
}

pub open spec fn decode_col(wr: nat, wb: nat, c: int) -> Seq<Player> {
    Seq::new(
        len_from(wr, wb, c, 0) as nat,
        |y: int|
            if nbit(wr, (7 * c + y) as nat) {
                Player::Red
            } else {
                Player::Blue
            },
    )
}

/// The board that a pair of wire words denotes. Every pair decodes to
/// something: occupancy is read per column from the bottom up to the
/// first free cell, the red word wins a conflicting claim, and the two
/// flag bits give the turn and the result.
pub open spec fn decode(wr: nat, wb: nat) -> BoardModel {
    BoardModel {
        cols: Seq::new(7, |c: int| decode_col(wr, wb, c)),
        turn: if nbit(wr, 49) {
            Player::Blue
        } else {
            Player::Red
        },
        result: if nbit(wr, 50) && nbit(wb, 50) {
            Option::Some(GameResult::Tie)
        } else if nbit(wr, 50) {
            Option::Some(GameResult::Winner(Player::Red))
        } else if nbit(wb, 50) {
            Option::Some(GameResult::Winner(Player::Blue))
        } else {
            Option::None
        },
    }
}

proof fn lemma_col_code_bound(col: Seq<Player>, p: Player, n: int)
    requires
        0 <= n,
    ensures
        col_code_upto(col, p, n) < pow2(n as nat),
    decreases n,
{
    lemma_pow2_pos(n as nat);
    if n > 0 {
        lemma_col_code_bound(col, p, n - 1);
        lemma_pow2_unfold(n as nat);
    }
}

proof fn lemma_body_bound(cols: Seq<Seq<Player>>, p: Player, n: int)
    requires
        0 <= n,
        forall|c: int| 0 <= c < n ==> #[trigger] cols[c].len() <= 6,
    ensures
        body_upto(cols, p, n) < pow2((7 * n) as nat),
    decreases n,
{
    lemma_pow2_pos((7 * n) as nat);
    if n > 0 {
        lemma_body_bound(cols, p, n - 1);
        let code = col_code(cols[n - 1], p);
        assert(code < pow2(6)) by {
            lemma_col_code_bound(cols[n - 1], p, cols[n - 1].len() as int);
            if cols[n - 1].len() < 6 {
                lemma_pow2_strictly_increases(cols[n - 1].len(), 6);
            }
        }
        let low = pow2((7 * (n - 1)) as nat);
        lemma_pow2_pos((7 * (n - 1)) as nat);
        assert(body_upto(cols, p, n) < low + code * low);
        assert(low + code * low == (1 + code) * low) by {
            lemma_mul_is_distributive_add_other_way(low as int, 1, code as int);
        }
        assert((1 + code) * low <= pow2(6) * low) by {
            lemma_mul_inequality((1 + code) as int, pow2(6) as int, low as int);
        }
        assert(pow2(6) * low == pow2((7 * n - 1) as nat)) by {
            lemma_pow2_adds(6, (7 * (n - 1)) as nat);
        }
        assert(pow2((7 * n - 1) as nat) < pow2((7 * n) as nat)) by {
            lemma_pow2_strictly_increases((7 * n - 1) as nat, (7 * n) as nat);
        }
    }
}

/// Dividing out an exact multiple: `(x + q * d) / d == x / d + q`.
proof fn lemma_div_add_multiple(x: nat, q: nat, d: nat)
    requires
        0 < d,
    ensures
        (x + q * d) / d == x / d + q,
{
    lemma_fundamental_div_mod(x as int, d as int);
    lemma_div_multiples_vanish_fancy((q + x / d) as int, (x % d) as int, d as int);
    assert(d * (q + x / d) == d * q + d * (x / d)) by {
        lemma_mul_is_distributive_add(d as int, q as int, (x / d) as int);
    }
    assert(q * d == d * q) by {
        lemma_mul_is_commutative(q as int, d as int);
    }
}

/// Adding a multiple of `pow2(k)` leaves every digit strictly below
/// position `k` unchanged: reading `j` bits at offset `y` with
/// `y + j <= k` sees only `x`.
proof fn lemma_low_part(x: nat, m: nat, k: nat, y: nat, j: nat)
    requires
        y + j <= k,
    ensures
        (x + m * pow2(k)) / pow2(y) % pow2(j) == x / pow2(y) % pow2(j),
{
    let rest = pow2((k - y - j) as nat);
    lemma_pow2_pos(y);
    lemma_pow2_pos(j);
    lemma_pow2_pos((k - y) as nat);
    lemma_pow2_pos((k - y - j) as nat);
    assert(pow2(k) == pow2(y) * pow2((k - y) as nat)) by {
        lemma_pow2_adds(y, (k - y) as nat);
    }
    assert(pow2((k - y) as nat) == pow2(j) * rest) by {
        lemma_pow2_adds(j, (k - y - j) as nat);
    }
    let q = m * pow2((k - y) as nat);
    assert(m * pow2(k) == q * pow2(y)) by {
        lemma_mul_is_commutative(pow2(y) as int, pow2((k - y) as nat) as int);
        lemma_mul_is_associative(m as int, pow2((k - y) as nat) as int, pow2(y) as int);
    }
    assert((x + m * pow2(k)) / pow2(y) == x / pow2(y) + q) by {
        lemma_div_add_multiple(x, q, pow2(y));
    }
    assert(q == pow2(j) * (m * rest)) by {
        lemma_mul_is_associative(m as int, pow2(j) as int, rest as int);
        lemma_mul_is_commutative(m as int, pow2(j) as int);
        lemma_mul_is_associative(pow2(j) as int, m as int, rest as int);
    }
    assert((pow2(j) * (m * rest) + x / pow2(y)) % pow2(j) == (x / pow2(y)) % pow2(j)) by {
        lemma_mod_multiples_vanish((m * rest) as int, (x / pow2(y)) as int, pow2(j) as int);
    }
}

proof fn lemma_small_div_zero(x: nat, d: nat)
    requires
        x < d,
        0 < d,
    ensures
        x / d == 0,
{
    assert(x / d == 0) by (nonlinear_arith)
        requires
            0 <= x < d,
    ;
}

/// Digit `k` of the packed body: the code of column `k`.
proof fn lemma_body_digit(cols: Seq<Seq<Player>>, p: Player, n: int, k: int)
    requires
        0 <= k < n,
        forall|c: int| 0 <= c < n ==> #[trigger] cols[c].len() <= 6,
    ensures
        body_upto(cols, p, n) / pow2((7 * k) as nat) % pow2(7) == col_code(cols[k], p),
    decreases n,
{
    let code = col_code(cols[n - 1], p);
    if n == k + 1 {
        lemma_pow2_pos((7 * k) as nat);
        assert(body_upto(cols, p, n) / pow2((7 * k) as nat) == body_upto(cols, p, n - 1) / pow2(
            (7 * k) as nat,
        ) + code) by {
            lemma_div_add_multiple(body_upto(cols, p, n - 1), code, pow2((7 * k) as nat));
        }
        assert(body_upto(cols, p, n - 1) / pow2((7 * k) as nat) == 0) by {
            lemma_body_bound(cols, p, n - 1);
            lemma_small_div_zero(body_upto(cols, p, n - 1), pow2((7 * k) as nat));
        }
        assert(code < pow2(7)) by {
            lemma_col_code_bound(cols[k], p, cols[k].len() as int);
            if cols[k].len() < 7 {
                lemma_pow2_strictly_increases(cols[k].len(), 7);
            }
        }
        assert(code % pow2(7) == code) by {
            lemma_small_mod(code, pow2(7));
        }
    } else {
        lemma_body_digit(cols, p, n - 1, k);
        assert(7 * k + 7 <= 7 * (n - 1));
        lemma_low_part(body_upto(cols, p, n - 1), code, (7 * (n - 1)) as nat, (7 * k) as nat, 7);
    }
}

/// Bit `y` of a column code: whether cell `y` holds `p`'s piece.
proof fn lemma_col_code_bit(col: Seq<Player>, p: Player, n: int, y: int)
    requires
        0 <= n <= 6,
        0 <= y,
    ensures
        col_code_upto(col, p, n) / pow2(y as nat) % 2 == (if y < n && col[y] == p {
            1nat
        } else {
            0nat
        }),
    decreases n,
{
    lemma_pow2_pos(y as nat);
    assert(pow2(1) == 2) by {
        lemma2_to64();
    }
    if n == 0 {
        lemma_small_div_zero(0, pow2(y as nat));
    } else {
        let b: nat = if col[n - 1] == p {
            1
        } else {
            0
        };
        let low = col_code_upto(col, p, n - 1);
        assert(col_code_upto(col, p, n) == low + b * pow2((n - 1) as nat));
        if y < n - 1 {
            lemma_col_code_bit(col, p, n - 1, y);
            lemma_low_part(low, b, (n - 1) as nat, y as nat, 1);
        } else if y == n - 1 {
            assert((low + b * pow2(y as nat)) / pow2(y as nat) == low / pow2(y as nat) + b) by {
                lemma_div_add_multiple(low, b, pow2(y as nat));
            }
            assert(low / pow2(y as nat) == 0) by {
                lemma_col_code_bound(col, p, n - 1);
                lemma_small_div_zero(low, pow2(y as nat));
            }
            assert(b % 2 == b);
        } else {
            assert(col_code_upto(col, p, n) < pow2(n as nat)) by {
                lemma_col_code_bound(col, p, n);
            }
            assert(pow2(n as nat) <= pow2(y as nat)) by {
                if n < y {
                    lemma_pow2_strictly_increases(n as nat, y as nat);
                }
            }
            lemma_small_div_zero(col_code_upto(col, p, n), pow2(y as nat));
        }
    }
}

/// Bit `7c + y` of a wire word: whether cell `(c, y)` holds `p`'s piece.
proof fn lemma_word_bit(m: BoardModel, p: Player, c: int, y: int)
    requires
        m.wf(),
        0 <= c < 7,
        0 <= y < 6,
    ensures
        nbit(word_spec(m, p), (7 * c + y) as nat) == (y < m.cols[c].len() && m.cols[c][y] == p),
{
    let w = word_spec(m, p);
    let body = body_upto(m.cols, p, 7);
    let code = col_code(m.cols[c], p);
    lemma_pow2_pos((7 * c) as nat);
    lemma_pow2_pos(y as nat);
    lemma_pow2_pos(7);
    lemma_pow2_pos((7 * c + y) as nat);

    // The flag terms sit at bits 49 and 50, above every cell bit.
    let flags = turn_flag(m) * pow2(49) + over_flag(m, p) * pow2(50);
    assert(flags == (turn_flag(m) + over_flag(m, p) * 2) * pow2(49)) by {
        lemma_pow2_adds(1, 49);
        assert(pow2(1) == 2) by {
            lemma2_to64();
        }
        lemma_mul_is_distributive_add_other_way(
            pow2(49) as int,
            turn_flag(m) as int,
            (over_flag(m, p) * 2) as int,
        );
        lemma_mul_is_associative(over_flag(m, p) as int, 2, pow2(49) as int);
    }

    // Digit c of the whole word equals digit c of the body.
    assert(w / pow2((7 * c) as nat) % pow2(7) == body / pow2((7 * c) as nat) % pow2(7)) by {
        assert(7 * c + 7 <= 49);
        lemma_low_part(body, (turn_flag(m) + over_flag(m, p) * 2), 49, (7 * c) as nat, 7);
    }
    assert(body / pow2((7 * c) as nat) % pow2(7) == code) by {
        lemma_body_digit(m.cols, p, 7, c);
    }

    // Split the shifted word into its low digit and the rest.
    let x = w / pow2((7 * c) as nat);
    assert(x == pow2(7) * (x / pow2(7)) + code) by {
        lemma_fundamental_div_mod(x as int, pow2(7) as int);
    }
    assert(x / pow2(y as nat) % 2 == code / pow2(y as nat) % 2) by {
        assert(x == code + (x / pow2(7)) * pow2(7)) by {
            lemma_mul_is_commutative(pow2(7) as int, (x / pow2(7)) as int);
        }
        assert(pow2(1) == 2) by {
            lemma2_to64();
        }
        lemma_low_part(code, x / pow2(7), 7, y as nat, 1);
    }

    // Bit y of the shifted word is bit 7c + y of the word itself.
    assert(w / pow2((7 * c + y) as nat) == x / pow2(y as nat)) by {
        lemma_pow2_adds((7 * c) as nat, y as nat);
        lemma_div_denominator(w as int, pow2((7 * c) as nat) as int, pow2(y as nat) as int);
    }

    assert(code / pow2(y as nat) % 2 == (if y < m.cols[c].len() && m.cols[c][y] == p {
        1nat
    } else {
        0nat
    })) by {
        lemma_col_code_bit(m.cols[c], p, m.cols[c].len() as int, y);
    }
}

/// The two flag bits of a wire word: the turn and the game-over mark.
proof fn lemma_word_flags(m: BoardModel, p: Player)
    requires
        m.wf(),
    ensures
        nbit(word_spec(m, p), 49) == (m.turn == Player::Blue),
        nbit(word_spec(m, p), 50) == (over_flag(m, p) == 1),
{
    let w = word_spec(m, p);
    let body = body_upto(m.cols, p, 7);
    let t = turn_flag(m);
    let g = over_flag(m, p);
    lemma_pow2_pos(49);
    lemma_pow2_pos(50);
    lemma_pow2_pos(1);
    assert(pow2(1) == 2) by {
        lemma2_to64();
    }
    let d = t + g * 2;
    assert(w == body + d * pow2(49)) by {
        lemma_pow2_adds(1, 49);
        lemma_mul_is_distributive_add_other_way(pow2(49) as int, t as int, (g * 2) as int);
        lemma_mul_is_associative(g as int, 2, pow2(49) as int);
    }
    assert(w / pow2(49) == d) by {
        lemma_div_add_multiple(body, d, pow2(49));
        lemma_body_bound(m.cols, p, 7);
        lemma_small_div_zero(body, pow2(49));
    }
    assert(d % 2 == t) by {
        lemma_mod_multiples_vanish(g as int, t as int, 2);
        lemma_small_mod(t, 2);
    }
    assert(w / pow2(50) == g) by {
        lemma_pow2_adds(49, 1);
        lemma_div_denominator(w as int, pow2(49) as int, 2);
        assert((t + g * 2) / 2 == g) by {
            lemma_div_add_multiple(t, g, 2);
            lemma_small_div_zero(t, 2);
        }
    }
    assert(g % 2 == g) by {
        lemma_small_mod(g, 2);
    }
}

proof fn lemma_len_from_range(wr: nat, wb: nat, c: int, y: int)
    requires
        0 <= y <= 6,
    ensures
        y <= len_from(wr, wb, c, y) <= 6,
    decreases 6 - y,
{
    if y < 6 && occ_at(wr, wb, c, y) {
        lemma_len_from_range(wr, wb, c, y + 1);
    }
}

/// Reading the height of an encoded column recovers the stack height.
proof fn lemma_len_from_decode(m: BoardModel, c: int, y: int)
    requires
        m.wf(),
        0 <= c < 7,
        0 <= y <= m.cols[c].len(),
    ensures
        len_from(word_spec(m, Player::Red), word_spec(m, Player::Blue), c, y) == m.cols[c].len(),
    decreases 6 - y,
{
    let wr = word_spec(m, Player::Red);
    let wb = word_spec(m, Player::Blue);
    let len = m.cols[c].len() as int;
    if y == 6 {
    } else {
        lemma_word_bit(m, Player::Red, c, y);
        lemma_word_bit(m, Player::Blue, c, y);
        if y == len {
            assert(!occ_at(wr, wb, c, y));
        } else {
            assert(occ_at(wr, wb, c, y)) by {
                if m.cols[c][y] != Player::Red {
                    assert(m.cols[c][y] == Player::Blue);
                }
            }
            lemma_len_from_decode(m, c, y + 1);
        }
    }
}

/// A power of two as a machine word.
fn pow2_u64(n: u64) -> (r: u64)
    requires
        n < 64,
    ensures
        r as nat == pow2(n as nat),
        r >= 1,
{
    proof {
        lemma_u64_pow2_no_overflow(n as nat);
        lemma_u64_shl_is_mul(1u64, n);
        lemma_pow2_pos(n as nat);
    }
    1u64 << n
}

impl Board {
    /// One player's wire word for this board.
    fn color_word(&self, p: Player) -> (w: u64)
        requires
            self@.wf(),
        ensures
            w as nat == word_spec(self@, p),
    {
        let ghost cols = self@.cols;
        let mut w: u64 = 0;
        let mut c: usize = 0;
        while c < 7
            invariant
                self@.wf(),
                cols == self@.cols,
                c <= 7,
                w as nat == body_upto(cols, p, c as int),
            decreases 7 - c,
        {
            proof {
                lemma_body_bound(cols, p, c as int);
            }
            let col = &self.cols[c];
            let mut y: usize = 0;
            while y < col.len()
                invariant
                    self@.wf(),
                    cols == self@.cols,
                    c < 7,
                    col@ == cols[c as int],
                    y <= col@.len(),
                    col@.len() <= 6,
                    w as nat == body_upto(cols, p, c as int) + col_code_upto(
                        cols[c as int],
                        p,
                        y as int,
                    ) * pow2((7 * c) as nat),
                decreases col@.len() - y,
            {
                if col[y] == p {
                    let add = pow2_u64(7 * (c as u64) + (y as u64));
                    proof {
                        lemma_body_bound(cols, p, c as int);
                        lemma_col_code_bound(cols[c as int], p, y as int);
                        lemma_pow2_adds(y as nat, (7 * c) as nat);
                        lemma_mul_inequality(
                            col_code_upto(cols[c as int], p, y as int) as int,
                            (pow2(y as nat) - 1) as int,
                            pow2((7 * c) as nat) as int,
                        );
                        lemma_mul_is_distributive_sub_other_way(
                            pow2((7 * c) as nat) as int,
                            pow2(y as nat) as int,
                            1,
                        );
                        lemma_pow2_strictly_increases((7 * c + y) as nat, 49);
                        lemma_pow2_strictly_increases((7 * c) as nat, 49);
                        lemma2_to64_rest();
                        lemma_mul_is_distributive_add(
                            pow2((7 * c) as nat) as int,
                            col_code_upto(cols[c as int], p, y as int) as int,
                            pow2(y as nat) as int,
                        );
                        lemma_mul_is_commutative(
                            pow2((7 * c) as nat) as int,
                            col_code_upto(cols[c as int], p, (y + 1) as int) as int,
                        );
                        lemma_mul_is_commutative(
                            pow2((7 * c) as nat) as int,
                            col_code_upto(cols[c as int], p, y as int) as int,
                        );
                        lemma_mul_is_commutative(
                            pow2((7 * c) as nat) as int,
                            pow2(y as nat) as int,
                        );
                    }
                    w = w + add;
                }
                y += 1;
            }
            c += 1;
        }
        proof {
            lemma_body_bound(cols, p, 7);
            lemma2_to64_rest();
        }
        let turn_blue = match self.turn {
            Player::Blue => true,
            Player::Red => false,
        };
        if turn_blue {
            w = w + pow2_u64(49);
        }
        let over = match self.result {
            Option::None => false,
            Option::Some(GameResult::Tie) => true,
            Option::Some(GameResult::Winner(win)) => win == p,
        };
        if over {
            w = w + pow2_u64(50);
        }
        proof {
            lemma2_to64_rest();
        }
        w
    }

    /// Packs the board into its two wire words, the first player's word
    /// first.
    pub fn serialize(&self) -> (w: (u64, u64))
        requires
            self@.wf(),
        ensures
            w.0 as nat == word_spec(self@, Player::Red),
            w.1 as nat == word_spec(self@, Player::Blue),
    {
        (self.color_word(Player::Red), self.color_word(Player::Blue))
    }

    /// Rebuilds a board from a pair of wire words. Every pair denotes
    /// some board: each column is read from the bottom up to its first
    /// free cell, and the flag bits give the turn and the result.
    pub fn unserialize(words: (u64, u64)) -> (b: Board)
        ensures
            b@ == decode(words.0 as nat, words.1 as nat),
            b@.wf(),
    {
        let (wr, wb) = words;
        let mut cols: Vec<Vec<Player>> = Vec::new();
        let mut c: u64 = 0;
        while c < 7
            invariant
                c <= 7,
                cols@.len() == c,
                forall|i: int|
                    0 <= i < c ==> #[trigger] cols@[i]@ == decode_col(wr as nat, wb as nat, i),
            decreases 7 - c,
        {
            let mut col: Vec<Player> = Vec::new();
            let mut y: u64 = 0;
            loop
                invariant_except_break
                    c < 7,
                    y <= 6,
                    len_from(wr as nat, wb as nat, c as int, 0) == len_from(
                        wr as nat,
                        wb as nat,
                        c as int,
                        y as int,
                    ),
                    col@.len() == y,
                    forall|yy: int|
                        0 <= yy < y ==> #[trigger] col@[yy] == (if nbit(
                            wr as nat,
                            (7 * c + yy) as nat,
                        ) {
                            Player::Red
                        } else {
                            Player::Blue
                        }),
                ensures
                    col@ == decode_col(wr as nat, wb as nat, c as int),
                decreases 6 - y,
            {
                if y >= 6 {
                    proof {
                        assert(col@ =~= decode_col(wr as nat, wb as nat, c as int));
                    }
                    break ;
                }
                let place = pow2_u64(7 * c + y);
                let rbit = (wr / place) % 2 == 1;
                let bbit = (wb / place) % 2 == 1;
                if !(rbit || bbit) {
                    proof {
                        assert(!occ_at(wr as nat, wb as nat, c as int, y as int));
                        assert(col@ =~= decode_col(wr as nat, wb as nat, c as int));
                    }
                    break ;
                }
                col.push(if rbit {
                    Player::Red
                } else {
                    Player::Blue
                });
                y += 1;
            }
            cols.push(col);
            c += 1;
        }
        let p49 = pow2_u64(49);
        let p50 = pow2_u64(50);
        let turn = if (wr / p49) % 2 == 1 {
            Player::Blue
        } else {
            Player::Red
        };
        let rover = (wr / p50) % 2 == 1;
        let bover = (wb / p50) % 2 == 1;
        let result = if rover && bover {
            Option::Some(GameResult::Tie)
        } else if rover {
            Option::Some(GameResult::Winner(Player::Red))
        } else if bover {
            Option::Some(GameResult::Winner(Player::Blue))
        } else {
            Option::None
        };
        let b = Board { cols, turn, result };
        proof {
            assert(b@.cols =~= decode(wr as nat, wb as nat).cols);
            assert forall|i: int| 0 <= i < 7 implies #[trigger] b@.cols[i].len() <= 6 by {
                lemma_len_from_range(wr as nat, wb as nat, i, 0);
            }
        }
        b
    }
}

/// Round trip: the two-word wire encoding of any sound board decodes
/// back to the very same board — the same slot contents, the same
/// active player, and the same result.
pub proof fn lemma_round_trip(m: BoardModel)
    requires
        m.wf(),
    ensures
        decode(word_spec(m, Player::Red), word_spec(m, Player::Blue)) == m,
{
    let wr = word_spec(m, Player::Red);
    let wb = word_spec(m, Player::Blue);
    let d = decode(wr, wb);
    assert forall|c: int| 0 <= c < 7 implies decode_col(wr, wb, c) == m.cols[c] by {
        lemma_len_from_decode(m, c, 0);
        assert forall|y: int| 0 <= y < m.cols[c].len() implies decode_col(wr, wb, c)[y]
            == m.cols[c][y] by {
            lemma_word_bit(m, Player::Red, c, y);
            if m.cols[c][y] != Player::Red {
                assert(m.cols[c][y] == Player::Blue);
            }
        }
        assert(decode_col(wr, wb, c) =~= m.cols[c]);
    }
    assert(d.cols =~= m.cols);
    lemma_word_flags(m, Player::Red);
    lemma_word_flags(m, Player::Blue);
    assert(d.turn == m.turn);
    assert(d.result == m.result);
}

} // verus!
