//! The Connect Four board: seven columns of six slots, two players who
//! alternate, and a game result derived after every move. The board is
//! modelled as a stack of pieces per column together with the active
//! player and the result so far.

use vstd::prelude::*;
use vstd::pervasive::VecAdditionalExecFns;

verus! {

pub const BOARD_WIDTH: u8 = 7;

pub const BOARD_HEIGHT: u8 = 6;

#[derive(Clone, Copy, Debug, PartialEq, Eq, Structural)]
pub enum Player {
    Red,
    Blue,
}

#[derive(Clone, Copy, Debug, PartialEq, Eq, Structural)]
pub enum Slot {
    Empty,
    Piece(Player),
}

#[derive(Clone, Copy, Debug, PartialEq, Eq, Structural)]
pub enum GameResult {
    Winner(Player),
    Tie,
}

#[derive(Clone, Copy, Debug, PartialEq, Eq, Structural)]
pub enum GameStatus {
    Turn(Player),
    GameOver(GameResult),
}

impl Player {
    pub open spec fn opponent_spec(self) -> Player {
        match self {
            Player::Red => Player::Blue,
            Player::Blue => Player::Red,
        }
    }

    pub fn opponent(self) -> (r: Player)
        ensures
            r == self.opponent_spec(),
    {
        match self {
            Player::Red => Player::Blue,
            Player::Blue => Player::Red,
        }
    }
}

/// The mathematical value of a board: the column stacks (bottom slot
/// first), the player to move, and the result once the game has ended.
pub ghost struct BoardModel {
    pub cols: Seq<Seq<Player>>,
    pub turn: Player,
    pub result: Option<GameResult>,
}

impl BoardModel {
    /// Structural soundness: seven columns, none holding more than six pieces.
    pub open spec fn wf(self) -> bool {
        &&& self.cols.len() == 7
        &&& forall|c: int| 0 <= c < 7 ==> #[trigger] self.cols[c].len() <= 6
    }

    pub open spec fn slot(self, x: int, y: int) -> Slot {
        if 0 <= x < self.cols.len() && 0 <= y < self.cols[x].len() {
            Slot::Piece(self.cols[x][y])
        } else {
            Slot::Empty
        }
    }

    pub open spec fn status(self) -> GameStatus {
        match self.result {
            Option::None => GameStatus::Turn(self.turn),
            Option::Some(r) => GameStatus::GameOver(r),
        }
    }

    /// A move into column `c` is legal: the column exists, the game is
    /// still running, and the column has room.
    pub open spec fn legal(self, c: int) -> bool {
        &&& 0 <= c < 7
        &&& self.result is None
        &&& self.cols[c].len() < 6
    }

    pub open spec fn is_full(self) -> bool {
        forall|c: int| 0 <= c < 7 ==> #[trigger] self.cols[c].len() >= 6
    }

    /// Four cells in a row starting at (x, y) and stepping by (dx, dy)
    /// all hold a piece of player `p`.
    pub open spec fn line_at(self, p: Player, x: int, y: int, dx: int, dy: int) -> bool {
        &&& self.slot(x, y) == Slot::Piece(p)
        &&& self.slot(x + dx, y + dy) == Slot::Piece(p)
        &&& self.slot(x + 2 * dx, y + 2 * dy) == Slot::Piece(p)
        &&& self.slot(x + 3 * dx, y + 3 * dy) == Slot::Piece(p)
    }

    /// The four directions a winning line can run in, up to reversal.
    pub open spec fn dir_ok(dx: int, dy: int) -> bool {
        ||| (dx == 1 && dy == 0)
        ||| (dx == 0 && dy == 1)
        ||| (dx == 1 && dy == 1)
        ||| (dx == 1 && dy == -1)
    }

    pub open spec fn has_won(self, p: Player) -> bool {
        exists|x: int, y: int, dx: int, dy: int|
            Self::dir_ok(dx, dy) && self.line_at(p, x, y, dx, dy)
    }

    /// The board after the active player's piece lands in column `c`,
    /// before the status is brought up to date.
    pub open spec fn after_drop(self, c: int) -> BoardModel {
        BoardModel { cols: self.cols.update(c, self.cols[c].push(self.turn)), ..self }
    }

    /// The full effect of a legal move into column `c`: the piece lands,
    /// then the mover's win is checked before the board is checked for
    /// being full, so a move that does both counts as a win, never a tie;
    /// if the game goes on, the turn passes to the opponent.
    pub open spec fn play(self, c: int) -> BoardModel {
        let p = self.turn;
        let dropped = self.after_drop(c);
        if dropped.has_won(p) {
            BoardModel { result: Option::Some(GameResult::Winner(p)), ..dropped }
        } else if dropped.is_full() {
            BoardModel { result: Option::Some(GameResult::Tie), ..dropped }
        } else {
            BoardModel { turn: p.opponent_spec(), ..dropped }
        }
    }

    /// The number of pieces on the board, a measure that every move raises.
    pub open spec fn piece_count(self) -> int {
        Self::count_cols(self.cols, self.cols.len() as int)
    }

    pub open spec fn count_cols(cols: Seq<Seq<Player>>, n: int) -> int
        decreases n,
    {
        if n <= 0 {
            0
        } else {
            Self::count_cols(cols, n - 1) + cols[n - 1].len()
        }
    }

    pub open spec fn empty() -> BoardModel {
        BoardModel {
            cols: Seq::new(7, |c: int| Seq::empty()),
            turn: Player::Red,
            result: Option::None,
        }
    }
}

/// Win precedence: a legal move that completes four in a row for the
/// mover ends the game with that player's win — even when the same move
/// also fills the board, so the outcome is never a tie in that case.
pub proof fn lemma_win_precedence(m: BoardModel, c: int)
    requires
        m.wf(),
        m.legal(c),
        m.after_drop(c).has_won(m.turn),
    ensures
        m.play(c).result == Option::Some(GameResult::Winner(m.turn)),
{
}

/// Column-full boundary: a legal move raises the played column's height
/// by exactly one and leaves every other column unchanged; while the
/// game runs, a column stays open exactly as long as its height is
/// under six.
pub proof fn lemma_column_full_boundary(m: BoardModel, c: int, d: int)
    requires
        m.wf(),
        m.legal(c),
        0 <= d < 7,
    ensures
        m.play(c).cols[c].len() == m.cols[c].len() + 1,
        d != c ==> m.play(c).cols[d].len() == m.cols[d].len(),
        m.play(c).result is None ==> (m.play(c).legal(d) <==> m.play(c).cols[d].len() < 6),
{
}

/// The empty board offers a legal column.
pub proof fn lemma_empty_has_room()
    ensures
        exists|d: int| 0 <= d < 7 && BoardModel::empty().legal(d),
{
    assert(BoardModel::empty().legal(0));
}

/// Legality closure: a legal move on a sound board leaves a board
/// that, if its game still runs, again offers a legal column — a move
/// that fills the last cell always records a result. Together with the
/// empty board's room, every board reached by legal moves with no
/// result yet accepts some move.
pub proof fn lemma_play_keeps_room(m: BoardModel, c: int)
    requires
        m.wf(),
        m.legal(c),
    ensures
        m.play(c).result is None ==> exists|d: int| 0 <= d < 7 && m.play(c).legal(d),
{
    let m2 = m.play(c);
    if m2.result is None {
        let dropped = m.after_drop(c);
        assert(!dropped.has_won(m.turn) && !dropped.is_full());
        assert(m2.cols == dropped.cols);
        assert(!m2.is_full());
        let d = choose|d: int| 0 <= d < 7 && !(m2.cols[d].len() >= 6);
        assert(m2.legal(d));
    }
}

proof fn lemma_count_cols_bound(cols: Seq<Seq<Player>>, n: int)
    requires
        0 <= n <= cols.len(),
        forall|c: int| 0 <= c < n ==> #[trigger] cols[c].len() <= 6,
    ensures
        0 <= BoardModel::count_cols(cols, n) <= 6 * n,
    decreases n,
{
    if n > 0 {
        lemma_count_cols_bound(cols, n - 1);
    }
}

proof fn lemma_count_cols_update(cols: Seq<Seq<Player>>, c: int, col: Seq<Player>, n: int)
    requires
        0 <= c < cols.len(),
        n <= cols.len(),
    ensures
        BoardModel::count_cols(cols.update(c, col), n) == BoardModel::count_cols(cols, n) + (
        if c < n {
            col.len() - cols[c].len()
        } else {
            0
        }),
    decreases n,
{
    if n > 0 {
        lemma_count_cols_update(cols, c, col, n - 1);
    }
}

/// The board never holds more pieces than its 42 cells.
pub proof fn lemma_piece_count_bound(m: BoardModel)
    requires
        m.wf(),
    ensures
        0 <= m.piece_count() <= 42,
{
    lemma_count_cols_bound(m.cols, 7);
}

/// Every legal move adds exactly one piece.
pub proof fn lemma_play_piece_count(m: BoardModel, c: int)
    requires
        m.wf(),
        m.legal(c),
    ensures
        m.play(c).piece_count() == m.piece_count() + 1,
        m.play(c).wf(),
{
    lemma_count_cols_update(m.cols, c, m.cols[c].push(m.turn), 7);
    assert(m.play(c).cols.len() == 7);
}

/// The horizontal step of direction `d` (rightward, upward, both
/// diagonals in turn).
pub open spec fn dir_dx(d: int) -> int {
    if d == 1 {
        0
    } else {
        1
    }
}

/// The vertical step of direction `d`.
pub open spec fn dir_dy(d: int) -> int {
    if d == 0 {
        0
    } else if d == 3 {
        -1
    } else {
        1
    }
}

fn clone_col(col: &Vec<Player>) -> (r: Vec<Player>)
    ensures
        r@ == col@,
{
    let mut out: Vec<Player> = Vec::new();
    let mut i: usize = 0;
    while i < col.len()
        invariant
            i <= col@.len(),
            out@.len() == i,
            forall|k: int| 0 <= k < i ==> out@[k] == col@[k],
        decreases col@.len() - i,
    {
        out.push(col[i]);
        i += 1;
    }
    proof {
        assert(out@ =~= col@);
    }
    out
}

#[derive(Debug, PartialEq, Eq)]
pub struct Board {
    pub(crate) cols: Vec<Vec<Player>>,
    pub(crate) turn: Player,
    pub(crate) result: Option<GameResult>,
}

impl Clone for Board {
    fn clone(&self) -> (r: Board)
        ensures
            r@ == self@,
    {
        let mut cols: Vec<Vec<Player>> = Vec::new();
        let mut i: usize = 0;
        while i < self.cols.len()
            invariant
                i <= self.cols@.len(),
                cols@.len() == i,
                forall|k: int| 0 <= k < i ==> #[trigger] cols@[k]@ == self.cols@[k]@,
            decreases self.cols@.len() - i,
        {
            cols.push(clone_col(&self.cols[i]));
            i += 1;
        }
        let r = Board { cols, turn: self.turn, result: self.result };
        proof {
            assert(r@.cols =~= self@.cols);
        }
        r
    }
}

impl View for Board {
    type V = BoardModel;

    open(crate) spec fn view(&self) -> BoardModel {
        BoardModel {
            cols: Seq::new(self.cols@.len() as nat, |c: int| self.cols@[c]@),
            turn: self.turn,
            result: self.result,
        }
    }
}

impl Board {
    pub fn empty_board() -> (r: Board)
        ensures
            r@ == BoardModel::empty(),
            r@.wf(),
    {
        let mut cols: Vec<Vec<Player>> = Vec::new();
        let mut c: usize = 0;
        while c < 7
            invariant
                c <= 7,
                cols@.len() == c,
                forall|i: int| 0 <= i < c ==> #[trigger] cols@[i]@ == Seq::<Player>::empty(),
            decreases 7 - c,
        {
            cols.push(Vec::new());
            c += 1;
        }
        let b = Board { cols, turn: Player::Red, result: Option::None };
        proof {
            assert(b@.cols =~= BoardModel::empty().cols);
        }
        b
    }

    pub fn slot_at(&self, x: u8, y: u8) -> (r: Slot)
        requires
            self@.wf(),
            x < BOARD_WIDTH,
            y < BOARD_HEIGHT,
        ensures
            r == self@.slot(x as int, y as int),
    {
        let col = &self.cols[x as usize];
        if (y as usize) < col.len() {
            Slot::Piece(col[y as usize])
        } else {
            Slot::Empty
        }
    }

    pub fn game_status(&self) -> (r: GameStatus)
        ensures
            r == self@.status(),
    {
        match self.result {
            Option::None => GameStatus::Turn(self.turn),
            Option::Some(res) => GameStatus::GameOver(res),
        }
    }

    pub fn active_player(&self) -> (r: Player)
        ensures
            r == self@.turn,
    {
        self.turn
    }

    pub fn is_column_full(&self, column: u8) -> (r: bool)
        requires
            self@.wf(),
            column < BOARD_WIDTH,
        ensures
            r == (self@.cols[column as int].len() >= 6),
    {
        self.cols[column as usize].len() >= 6
    }

    pub fn is_move_legal(&self, column: u8) -> (r: bool)
        requires
            self@.wf(),
        ensures
            r == self@.legal(column as int),
    {
        if column >= 7 {
            false
        } else if self.result.is_some() {
            false
        } else {
            !self.is_column_full(column)
        }
    }

    fn drop_piece(&mut self, column: u8, piece: Player) -> (r: Result<(), ()>)
        requires
            old(self)@.wf(),
            column < 7,
        ensures
            final(self)@.wf(),
            old(self)@.cols[column as int].len() < 6 ==> {
                &&& r is Ok
                &&& final(self)@.cols == old(self)@.cols.update(
                    column as int,
                    old(self)@.cols[column as int].push(piece),
                )
                &&& final(self)@.turn == old(self)@.turn
                &&& final(self)@.result == old(self)@.result
            },
            old(self)@.cols[column as int].len() >= 6 ==> r is Err && final(self)@ == old(self)@,
    {
        let c = column as usize;
        if self.cols[c].len() < 6 {
            let mut col = clone_col(&self.cols[c]);
            col.push(piece);
            self.cols.set(c, col);
            proof {
                assert(self@.cols =~= old(self)@.cols.update(
                    column as int,
                    old(self)@.cols[column as int].push(piece),
                ));
            }
            Result::Ok(())
        } else {
            Result::Err(())
        }
    }

    fn swap_turn(&mut self)
        ensures
            final(self)@ == (BoardModel { turn: old(self)@.turn.opponent_spec(), ..old(self)@ }),
    {
        self.turn = self.turn.opponent();
    }

    fn board_is_full(&self) -> (r: bool)
        requires
            self@.wf(),
        ensures
            r == self@.is_full(),
    {
        let mut c: usize = 0;
        while c < 7
            invariant
                self@.wf(),
                c <= 7,
                forall|i: int| 0 <= i < c ==> #[trigger] self@.cols[i].len() >= 6,
            decreases 7 - c,
        {
            if self.cols[c].len() < 6 {
                proof {
                    assert(self@.cols[c as int].len() < 6);
                }
                return false;
            }
            c += 1;
        }
        true
    }

    /// Tests one four-cell window for player `p`: the window starts at
    /// (x, y) and runs in direction `dir`.
    fn line_here(&self, p: Player, x: u8, y: u8, dir: u8) -> (r: bool)
        requires
            self@.wf(),
            x < 7,
            y < 6,
            dir < 4,
        ensures
            r == self@.line_at(p, x as int, y as int, dir_dx(dir as int), dir_dy(dir as int)),
    {
        if self.slot_at(x, y) != Slot::Piece(p) {
            return false;
        }
        if dir == 0 {
            x <= 3 && self.slot_at(x + 1, y) == Slot::Piece(p) && self.slot_at(x + 2, y)
                == Slot::Piece(p) && self.slot_at(x + 3, y) == Slot::Piece(p)
        } else if dir == 1 {
            y <= 2 && self.slot_at(x, y + 1) == Slot::Piece(p) && self.slot_at(x, y + 2)
                == Slot::Piece(p) && self.slot_at(x, y + 3) == Slot::Piece(p)
        } else if dir == 2 {
            x <= 3 && y <= 2 && self.slot_at(x + 1, y + 1) == Slot::Piece(p) && self.slot_at(
                x + 2,
                y + 2,
            ) == Slot::Piece(p) && self.slot_at(x + 3, y + 3) == Slot::Piece(p)
        } else {
            x <= 3 && y >= 3 && self.slot_at(x + 1, y - 1) == Slot::Piece(p) && self.slot_at(
                x + 2,
                y - 2,
            ) == Slot::Piece(p) && self.slot_at(x + 3, y - 3) == Slot::Piece(p)
        }
    }

    /// Scans every four-in-a-row geometry on the board for player `p`.
    fn has_winning_line(&self, p: Player) -> (r: bool)
        requires
            self@.wf(),
        ensures
            r == self@.has_won(p),
    {
        let mut x: u8 = 0;
        while x < 7
            invariant
                self@.wf(),
                x <= 7,
                forall|xx: int, yy: int, dd: int|
                    0 <= xx < x && 0 <= yy < 6 && 0 <= dd < 4 ==> !self@.line_at(
                        p,
                        xx,
                        yy,
                        dir_dx(dd),
                        dir_dy(dd),
                    ),
            decreases 7 - x,
        {
            let mut y: u8 = 0;
            while y < 6
                invariant
                    self@.wf(),
                    x < 7,
                    y <= 6,
                    forall|xx: int, yy: int, dd: int|
                        0 <= xx < x && 0 <= yy < 6 && 0 <= dd < 4 ==> !self@.line_at(
                            p,
                            xx,
                            yy,
                            dir_dx(dd),
                            dir_dy(dd),
                        ),
                    forall|yy: int, dd: int|
                        0 <= yy < y && 0 <= dd < 4 ==> !self@.line_at(
                            p,
                            x as int,
                            yy,
                            dir_dx(dd),
                            dir_dy(dd),
                        ),
                decreases 6 - y,
            {
                let mut dir: u8 = 0;
                while dir < 4
                    invariant
                        self@.wf(),
                        x < 7,
                        y < 6,
                        dir <= 4,
                        forall|dd: int|
                            0 <= dd < dir ==> !self@.line_at(
                                p,
                                x as int,
                                y as int,
                                dir_dx(dd),
                                dir_dy(dd),
                            ),
                    decreases 4 - dir,
                {
                    if self.line_here(p, x, y, dir) {
                        proof {
                            assert(BoardModel::dir_ok(dir_dx(dir as int), dir_dy(dir as int)));
                            assert(self@.has_won(p));
                        }
                        return true;
                    }
                    dir += 1;
                }
                y += 1;
            }
            x += 1;
        }
        proof {
            if self@.has_won(p) {
                let (wx, wy, wdx, wdy) = choose|wx: int, wy: int, wdx: int, wdy: int|
                    BoardModel::dir_ok(wdx, wdy) && self@.line_at(p, wx, wy, wdx, wdy);
                assert(self@.slot(wx, wy) == Slot::Piece(p));
                assert(0 <= wx < 7 && 0 <= wy < 6);
                let dd: int = if wdx == 1 && wdy == 0 {
                    0
                } else if wdx == 0 && wdy == 1 {
                    1
                } else if wdx == 1 && wdy == 1 {
                    2
                } else {
                    3
                };
                assert(dir_dx(dd) == wdx && dir_dy(dd) == wdy);
                assert(!self@.line_at(p, wx, wy, wdx, wdy));
                assert(false);
            }
        }
        false
    }

    /// Brings the status up to date after `mover`'s piece has landed: the
    /// mover's win is recorded first, a full board then counts as a tie,
    /// and otherwise the turn passes on.
    fn update_status_after_move(&mut self, mover: Player)
        requires
            old(self)@.wf(),
        ensures
            final(self)@.wf(),
            final(self)@ == (if old(self)@.has_won(mover) {
                BoardModel { result: Option::Some(GameResult::Winner(mover)), ..old(self)@ }
            } else if old(self)@.is_full() {
                BoardModel { result: Option::Some(GameResult::Tie), ..old(self)@ }
            } else {
                BoardModel { turn: old(self)@.turn.opponent_spec(), ..old(self)@ }
            }),
    {
        if self.has_winning_line(mover) {
            self.result = Option::Some(GameResult::Winner(mover));
        } else if self.board_is_full() {
            self.result = Option::Some(GameResult::Tie);
        } else {
            self.swap_turn();
        }
    }

    /// Applies a move by the active player. An illegal target (the game
    /// already over, or the column full) leaves the board untouched; the
    /// legality check above this call is expected to rule that out.
    pub fn play_move(&mut self, column: u8)
        requires
            old(self)@.wf(),
            column < BOARD_WIDTH,
        ensures
            final(self)@.wf(),
            old(self)@.legal(column as int) ==> final(self)@ == old(self)@.play(column as int),
            !old(self)@.legal(column as int) ==> final(self)@ == old(self)@,
    {
        if !self.is_move_legal(column) {
            return ;
        }
        let mover = self.active_player();
        let _ = self.drop_piece(column, mover);
        self.update_status_after_move(mover);
    }
}

} // verus!
