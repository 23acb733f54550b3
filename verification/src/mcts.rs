//! Monte Carlo tree search over the board. Each call builds a fresh
//! arena of nodes rooted at the caller's position, runs a fixed number
//! of selection / expansion / rollout / backpropagation rounds, and
//! answers with the root child that gathered the most visits — or with
//! the sentinel column 7 when no move can be recommended.

use vstd::prelude::*;
use vstd::pervasive::VecAdditionalExecFns;

use crate::board::{Board, BoardModel, GameResult, GameStatus, Player};
use crate::board::{lemma_piece_count_bound, lemma_play_piece_count};
use crate::codec::{decode, lemma_round_trip};

verus! {

/// The fixed-point scale of the selection score (one unit of win rate).
const UCT_SCALE: u64 = 65536;

/// Relies on rand::random_range: an index drawn from `0..bound`, which
/// for a non-empty range always lies below the bound.
#[verifier::external_body]
fn random_index(bound: usize) -> (r: usize)
    requires
        bound > 0,
    ensures
        r < bound,
{
    rand::random_range(0..bound)
}

/// The legal columns of a board, highest first, so that popping from
/// the end hands them out in ascending order.
fn untried_columns(b: &Board) -> (v: Vec<u8>)
    requires
        b@.wf(),
    ensures
        forall|k: int| 0 <= k < v@.len() ==> b@.legal(#[trigger] v@[k] as int),
        forall|c: int| 0 <= c < 7 && b@.legal(c) ==> v@.contains(c as u8),
{
    let mut v: Vec<u8> = Vec::new();
    let mut c: u8 = 7;
    while c > 0
        invariant
            c <= 7,
            b@.wf(),
            forall|k: int| 0 <= k < v@.len() ==> b@.legal(#[trigger] v@[k] as int),
            forall|cc: int| c as int <= cc < 7 && b@.legal(cc) ==> v@.contains(cc as u8),
        decreases c,
    {
        c -= 1;
        let ghost vold = v@;
        if b.is_move_legal(c) {
            v.push(c);
        }
        proof {
            assert forall|cc: int| c as int <= cc < 7 && b@.legal(cc) implies v@.contains(
                cc as u8,
            ) by {
                if cc == c as int {
                    assert(v@[v@.len() - 1] == c);
                } else {
                    let i = choose|i: int| 0 <= i < vold.len() && vold[i] == cc as u8;
                    assert(v@[i] == cc as u8);
                }
            }
        }
    }
    v
}

/// Plays uniformly random legal moves on a scratch board until the game
/// ends, and reports the outcome.
fn rollout(b: &mut Board) -> (r: GameResult)
    requires
        old(b)@.wf(),
{
    loop
        invariant
            b@.wf(),
        decreases 43 - b@.piece_count(),
    {
        proof {
            lemma_piece_count_bound(b@);
        }
        match b.game_status() {
            GameStatus::GameOver(res) => {
                return res;
            },
            GameStatus::Turn(_) => {
                let legal = untried_columns(b);
                if legal.len() == 0 {
                    // A stuck position outside normal play: count it as a tie.
                    return GameResult::Tie;
                }
                let k = random_index(legal.len());
                let c = legal[k];
                proof {
                    lemma_play_piece_count(b@, c as int);
                }
                b.play_move(c);
            },
        }
    }
}

/// The reward a node's mover takes from a finished game, in half-units:
/// two for a win, one for a tie, none for a loss.
fn reward(res: GameResult, mover: Player) -> (r: u64)
    ensures
        r <= 2,
{
    match res {
        GameResult::Winner(p) => if p == mover {
            2
        } else {
            0
        },
        GameResult::Tie => 1,
    }
}

/// An integer square root by bisection; only its bounds matter.
fn isqrt(x: u64) -> (r: u64)
    requires
        x < 0x4000_0000_0000_0000,
    ensures
        r * r <= x,
        x < (r + 1) * (r + 1),
{
    let mut lo: u64 = 0;
    let mut hi: u64 = 0x8000_0000;
    while lo + 1 < hi
        invariant
            lo < hi,
            hi <= 0x8000_0000,
            lo * lo <= x,
            x < hi * hi,
        decreases hi - lo,
    {
        let mid = lo + (hi - lo) / 2;
        proof {
            assert(mid * mid < 0x4000_0000_0000_0000) by (nonlinear_arith)
                requires
                    mid < 0x8000_0000,
            ;
        }
        if mid * mid <= x {
            lo = mid;
        } else {
            hi = mid;
        }
    }
    lo
}

/// A capped base-two logarithm; only the cap matters to the caller.
fn ilog2(x: u64) -> (r: u64)
    ensures
        r <= 63,
{
    let mut v = x;
    let mut r: u64 = 0;
    while v >= 2 && r < 63
        invariant
            r <= 63,
        decreases v,
    {
        v = v / 2;
        r = r + 1;
    }
    r
}

/// The selection score of a child: its average reward plus an
/// exploration bonus that grows with the parent's visits and shrinks
/// with its own, all in fixed-point arithmetic. The exact weighting is
/// a tunable, not a contract.
fn uct_score(half_wins: u64, visits: u64, parent_visits: u64) -> (s: u64)
    requires
        1 <= visits,
        half_wins <= 2 * visits,
        visits <= 0x1_0000_0000,
        parent_visits <= 0x1_0000_0000,
    ensures
        s < 0x1_0000_0000_0000,
{
    let exploit = half_wins * UCT_SCALE / (2 * visits);
    proof {
        assert(half_wins * UCT_SCALE <= 2 * visits * UCT_SCALE) by (nonlinear_arith)
            requires
                half_wins <= 2 * visits,
        ;
        assert(2 * visits * UCT_SCALE / (2 * visits) == UCT_SCALE) by (nonlinear_arith)
            requires
                1 <= visits,
        ;
        assert(exploit <= UCT_SCALE) by {
            vstd::arithmetic::div_mod::lemma_div_is_ordered(
                (half_wins * UCT_SCALE) as int,
                (2 * visits * UCT_SCALE) as int,
                (2 * visits) as int,
            );
        }
    }
    let lg = ilog2(parent_visits);
    let inner = lg * UCT_SCALE * UCT_SCALE / visits;
    proof {
        assert(lg * UCT_SCALE * UCT_SCALE <= 63 * 0x10000 * 0x10000) by (nonlinear_arith)
            requires
                lg <= 63,
        ;
        assert(inner <= 63 * 0x10000 * 0x10000) by {
            vstd::arithmetic::div_mod::lemma_div_is_ordered_by_denominator(
                (lg * UCT_SCALE * UCT_SCALE) as int,
                1,
                visits as int,
            );
        }
    }
    let root = isqrt(inner);
    proof {
        assert(root < 0x80_0000) by (nonlinear_arith)
            requires
                root * root <= inner,
                inner <= 63 * 0x10000 * 0x10000,
        ;
    }
    exploit + 3 * root
}

/// One search tree, laid out as parallel arrays indexed by node. A
/// node's parent always has a smaller index, so every ancestor walk
/// terminates; a node's children always have larger indices.
spec fn tree_ok(
    boards: Seq<Board>,
    parents: Seq<usize>,
    movers: Seq<Player>,
    cols_in: Seq<u8>,
    kids: Seq<Vec<usize>>,
    untried: Seq<Vec<u8>>,
    root: BoardModel,
) -> bool {
    let n = boards.len() as int;
    &&& parents.len() == n
    &&& movers.len() == n
    &&& cols_in.len() == n
    &&& kids.len() == n
    &&& untried.len() == n
    &&& n >= 1
    &&& boards[0]@ == root
    &&& (forall|i: int| 0 <= i < n ==> (#[trigger] boards[i])@.wf())
    &&& (forall|i: int| 1 <= i < n ==> (#[trigger] parents[i]) < i)
    &&& (forall|i: int, k: int|
        0 <= i < n && 0 <= k < kids[i]@.len() ==> i < (#[trigger] kids[i]@[k]) < n)
    &&& (forall|i: int, k: int|
        0 <= i < n && 0 <= k < kids[i]@.len() ==> parents[(#[trigger] kids[i]@[k]) as int] as int
            == i)
    &&& (forall|i: int, k: int|
        0 <= i < n && 0 <= k < untried[i]@.len() ==> boards[i]@.legal(
            (#[trigger] untried[i]@[k]) as int,
        ))
    &&& (forall|i: int|
        1 <= i < n ==> boards[parents[i] as int]@.legal((#[trigger] cols_in[i]) as int))
}

/// The visit and reward counters of a tree after `it` finished rounds:
/// the root has been visited once per round, every other node at least
/// once since its creation, and no reward outruns two half-units per
/// visit.
spec fn counts_ok(visits: Seq<u64>, half_wins: Seq<u64>, n: int, it: int) -> bool {
    &&& visits.len() == n
    &&& half_wins.len() == n
    &&& (forall|i: int| 1 <= i < n ==> 1 <= (#[trigger] visits[i]))
    &&& visits[0] as int == it
    &&& (forall|i: int| 0 <= i < n ==> (#[trigger] visits[i]) as int <= it)
    &&& (forall|i: int| 0 <= i < n ==> (#[trigger] half_wins[i]) <= 2 * visits[i])
}

/// Runs the whole search and names the root's most visited child. The
/// sentinel 7 comes back exactly when the budget is zero or the root
/// position offers no legal column at all.
#[verifier::loop_isolation(false)]
fn mcts_best_column(root: &Board, iterations: u32) -> (r: u8)
    requires
        root@.wf(),
    ensures
        r <= 7,
        r < 7 ==> root@.legal(r as int),
        (r == 7) <==> (iterations == 0 || (forall|c: int| 0 <= c < 7 ==> !root@.legal(c))),
{
    let ghost rootm = root@;
    let ghost has_legal = exists|c: int| 0 <= c < 7 && rootm.legal(c);

    let mut boards: Vec<Board> = Vec::new();
    let mut parents: Vec<usize> = Vec::new();
    let mut movers: Vec<Player> = Vec::new();
    let mut cols_in: Vec<u8> = Vec::new();
    let mut kids: Vec<Vec<usize>> = Vec::new();
    let mut untried: Vec<Vec<u8>> = Vec::new();
    let mut visits: Vec<u64> = Vec::new();
    let mut half_wins: Vec<u64> = Vec::new();

    boards.push(root.clone());
    parents.push(0);
    movers.push(root.active_player().opponent());
    cols_in.push(7);
    kids.push(Vec::new());
    untried.push(untried_columns(root));
    visits.push(0);
    half_wins.push(0);

    let mut it: u32 = 0;
    while it < iterations
        invariant
            it <= iterations,
            tree_ok(boards@, parents@, movers@, cols_in@, kids@, untried@, rootm),
            counts_ok(visits@, half_wins@, boards@.len() as int, it as int),
            boards@.len() <= it + 1,
            !has_legal ==> kids@[0]@.len() == 0,
            it >= 1 && has_legal ==> kids@[0]@.len() >= 1,
            it == 0 ==> (forall|c: int|
                0 <= c < 7 && rootm.legal(c) ==> untried@[0]@.contains(c as u8)),
        decreases iterations - it,
    {
        // Selection: descend while the node is fully expanded and has a child.
        let mut cur: usize = 0;
        while untried[cur].len() == 0 && kids[cur].len() > 0
            invariant
                cur < boards@.len(),
            decreases boards@.len() - cur,
        {
            let ks = &kids[cur];
            proof {
                if cur == 0 {
                    let k0 = kids@[0]@[0] as int;
                    assert(0 < k0 < boards@.len());
                    assert(boards@.len() >= 2);
                }
            }
            let pv = visits[cur];
            let mut best_k: usize = ks[0];
            let mut best_score: u64 = uct_score(half_wins[best_k], visits[best_k], pv);
            let mut j: usize = 1;
            while j < ks.len()
                invariant
                    cur < best_k < boards@.len(),
                    j <= ks@.len(),
                    ks == kids@[cur as int],
                decreases ks@.len() - j,
            {
                let k = ks[j];
                let s = uct_score(half_wins[k], visits[k], pv);
                if s > best_score {
                    best_score = s;
                    best_k = k;
                }
                j += 1;
            }
            cur = best_k;
        }
        // Expansion: materialize one untried column, if any.
        let mut cur2 = cur;
        if untried[cur].len() > 0 {
            let mut ut: Vec<u8> = Vec::new();
            untried.set_and_swap(cur, &mut ut);
            let col = ut.pop().unwrap();
            untried.set(cur, ut);
            let mut nb = boards[cur].clone();
            let mover = nb.active_player();
            nb.play_move(col);
            let new_idx = boards.len();
            boards.push(nb);
            parents.push(cur);
            movers.push(mover);
            cols_in.push(col);
            kids.push(Vec::new());
            untried.push(untried_columns(&boards[new_idx]));
            visits.push(0);
            half_wins.push(0);
            let mut kv: Vec<usize> = Vec::new();
            kids.set_and_swap(cur, &mut kv);
            kv.push(new_idx);
            kids.set(cur, kv);
            cur2 = new_idx;
        }
        // Rollout: a random playout from the chosen node's position.
        let mut sim = boards[cur2].clone();
        let res = rollout(&mut sim);
        // Backpropagation: walk the parent links back to the root.
        let ghost vis1 = visits@;
        let ghost half1 = half_wins@;
        let mut node = cur2;
        while node != 0
            invariant
                node < boards@.len(),
                visits@.len() == boards@.len(),
                half_wins@.len() == boards@.len(),
                forall|i: int|
                    0 <= i <= node ==> (#[trigger] visits@[i]) == vis1[i] && half_wins@[i]
                        == half1[i],
                forall|i: int|
                    0 <= i < boards@.len() ==> vis1[i] <= (#[trigger] visits@[i]) <= vis1[i] + 1,
                forall|i: int|
                    0 <= i < boards@.len() ==> half1[i] <= (#[trigger] half_wins@[i]) <= half1[i]
                        + 2,
                forall|i: int|
                    0 <= i < boards@.len() ==> (#[trigger] half_wins@[i]) <= 2 * visits@[i],
                node == cur2 || visits@[cur2 as int] == vis1[cur2 as int] + 1,
            decreases node,
        {
            let k = node;
            let rw = reward(res, movers[k]);
            let v1 = visits[k];
            visits.set(k, v1 + 1);
            let h1 = half_wins[k];
            half_wins.set(k, h1 + rw);
            node = parents[k];
        }
        let rw0 = reward(res, movers[0]);
        let v0 = visits[0];
        visits.set(0, v0 + 1);
        let h0 = half_wins[0];
        half_wins.set(0, h0 + rw0);
        proof {
            // The root gains a child in the very first round whenever a
            // legal column exists, and only then.
            if it == 0 && has_legal {
                let c = choose|c: int| 0 <= c < 7 && rootm.legal(c);
                assert(kids@[0]@.len() >= 1);
            }
            if !has_legal {
                assert(kids@[0]@.len() == 0);
            }
        }
        it += 1;
    }
    // Answer: the root child with the most visits; 7 when there is none.
    if kids[0].len() == 0 {
        proof {
            if iterations >= 1 && has_legal {
                assert(false);
            }
        }
        7
    } else {
        proof {
            let k0 = kids@[0]@[0] as int;
            assert(0 < k0 < boards@.len());
            assert(parents@[k0] as int == 0);
            assert(rootm.legal(cols_in@[k0] as int));
            assert(iterations >= 1);
        }
        let ks = &kids[0];
        let first = ks[0];
        let mut best_col: u8 = cols_in[first];
        let mut best_visits: u64 = visits[first];
        let mut j: usize = 1;
        while j < ks.len()
            invariant
                j <= ks@.len(),
                ks == kids@[0],
                best_col < 7,
                rootm.legal(best_col as int),
            decreases ks@.len() - j,
        {
            let k = ks[j];
            proof {
                let kk = kids@[0]@[j as int] as int;
                assert(0 < kk < boards@.len());
                assert(parents@[kk] as int == 0);
                assert(rootm.legal(cols_in@[kk] as int));
            }
            if visits[k] > best_visits {
                best_visits = visits[k];
                best_col = cols_in[k];
            }
            j += 1;
        }
        best_col
    }
}

/// The narrow whole-word call surface: two occupancy words and an
/// iteration budget in, one unsigned byte out — a legal column of the
/// decoded position, or 7 when the budget is zero or no legal column
/// exists.
pub fn search_move(red_pieces: u64, blue_pieces: u64, tree_size: u32) -> (r: u8)
    ensures
        r <= 7,
        r < 7 ==> decode(red_pieces as nat, blue_pieces as nat).legal(r as int),
        (r == 7) <==> (tree_size == 0 || (forall|c: int|
            0 <= c < 7 ==> !decode(red_pieces as nat, blue_pieces as nat).legal(c))),
{
    let board = Board::unserialize((red_pieces, blue_pieces));
    mcts_best_column(&board, tree_size)
}

/// Recommends a move for the active player, spending `rollout_number`
/// search rounds. The call succeeds exactly when the game is still
/// running, the budget is positive and a legal column exists; the
/// returned column is then legal on `b`.
pub fn ai_move(b: &Board, rollout_number: u32) -> (res: Result<u8, ()>)
    requires
        b@.wf(),
    ensures
        (res is Ok) <==> (b@.status() is Turn && rollout_number > 0 && (exists|c: int|
            0 <= c < 7 && b@.legal(c))),
        res matches Result::Ok(c) ==> b@.legal(c as int),
{
    match b.game_status() {
        GameStatus::GameOver(_) => Result::Err(()),
        GameStatus::Turn(_) => {
            let (red_pieces, blue_pieces) = b.serialize();
            proof {
                lemma_round_trip(b@);
            }
            let m = search_move(red_pieces, blue_pieces, rollout_number);
            if m == 7 {
                Result::Err(())
            } else {
                Result::Ok(m)
            }
        },
    }
}

} // verus!
