//! Rendering of a board as text: the grid is walked top row first,
//! each slot replaced by a caller-supplied token, with caller-supplied
//! separators between cells and around lines. A pure formatting
//! helper for the presentation layer; it never changes the board.

use vstd::prelude::*;
use vstd::string::StringExecFns;

use crate::board::{Board, BoardModel, Player, Slot};

verus! {

/// The token that stands for the slot at (x, y).
pub open spec fn token_of(
    m: BoardModel,
    x: int,
    y: int,
    red: Seq<char>,
    blue: Seq<char>,
    empty: Seq<char>,
) -> Seq<char> {
    match m.slot(x, y) {
        Slot::Piece(Player::Red) => red,
        Slot::Piece(Player::Blue) => blue,
        Slot::Empty => empty,
    }
}

/// The first `n` cells of board row `y` as text: every cell but the
/// last of the row is followed by the separator.
pub open spec fn row_upto(
    m: BoardModel,
    y: int,
    red: Seq<char>,
    blue: Seq<char>,
    empty: Seq<char>,
    sep: Seq<char>,
    n: int,
) -> Seq<char>
    decreases n,
{
    if n <= 0 {
        Seq::empty()
    } else if n <= 6 {
        row_upto(m, y, red, blue, empty, sep, n - 1) + token_of(m, n - 1, y, red, blue, empty)
            + sep
    } else {
        row_upto(m, y, red, blue, empty, sep, 6) + token_of(m, 6, y, red, blue, empty)
    }
}

/// The first `k` printed lines: line `kk` shows board row `5 - kk`,
/// wrapped in the line separator, opener and closer.
pub open spec fn lines_upto(
    m: BoardModel,
    red: Seq<char>,
    blue: Seq<char>,
    empty: Seq<char>,
    sep: Seq<char>,
    lstart: Seq<char>,
    lend: Seq<char>,
    lsep: Seq<char>,
    k: int,
) -> Seq<char>
    decreases k,
{
    if k <= 0 {
        Seq::empty()
    } else {
        lines_upto(m, red, blue, empty, sep, lstart, lend, lsep, k - 1) + lsep + lstart + row_upto(
            m,
            6 - k,
            red,
            blue,
            empty,
            sep,
            7,
        ) + lend
    }
}

/// The whole rendering: six lines, top row first, and one closing
/// line separator.
pub open spec fn render(
    m: BoardModel,
    red: Seq<char>,
    blue: Seq<char>,
    empty: Seq<char>,
    sep: Seq<char>,
    lstart: Seq<char>,
    lend: Seq<char>,
    lsep: Seq<char>,
) -> Seq<char> {
    lines_upto(m, red, blue, empty, sep, lstart, lend, lsep, 6) + lsep
}

impl Board {
    /// Renders the grid with the given slot tokens and separators.
    #[verifier::loop_isolation(false)]
    pub fn display(
        &self,
        red: &str,
        blue: &str,
        empty: &str,
        separator: &str,
        line_start: &str,
        line_end: &str,
        line_separator: &str,
    ) -> (out: String)
        requires
            self@.wf(),
        ensures
            out@ == render(
                self@,
                red@,
                blue@,
                empty@,
                separator@,
                line_start@,
                line_end@,
                line_separator@,
            ),
    {
        let ghost m = self@;
        let mut out = String::new();
        let mut y: u8 = 0;
        while y < 6
            invariant
                y <= 6,
                out@ == lines_upto(
                    m,
                    red@,
                    blue@,
                    empty@,
                    separator@,
                    line_start@,
                    line_end@,
                    line_separator@,
                    y as int,
                ),
            decreases 6 - y,
        {
            out.append(line_separator);
            out.append(line_start);
            let ghost prefix = out@;
            let mut x: u8 = 0;
            while x < 7
                invariant
                    x <= 7,
                    y < 6,
                    prefix == lines_upto(
                        m,
                        red@,
                        blue@,
                        empty@,
                        separator@,
                        line_start@,
                        line_end@,
                        line_separator@,
                        y as int,
                    ) + line_separator@ + line_start@,
                    out@ == prefix + row_upto(
                        m,
                        5 - y as int,
                        red@,
                        blue@,
                        empty@,
                        separator@,
                        x as int,
                    ),
                decreases 7 - x,
            {
                match self.slot_at(x, 5 - y) {
                    Slot::Piece(Player::Red) => out.append(red),
                    Slot::Piece(Player::Blue) => out.append(blue),
                    Slot::Empty => out.append(empty),
                }
                if x < 6 {
                    out.append(separator);
                }
                proof {
                    assert(out@ =~= prefix + row_upto(
                        m,
                        5 - y as int,
                        red@,
                        blue@,
                        empty@,
                        separator@,
                        (x + 1) as int,
                    ));
                }
                x += 1;
            }
            out.append(line_end);
            proof {
                assert(out@ =~= lines_upto(
                    m,
                    red@,
                    blue@,
                    empty@,
                    separator@,
                    line_start@,
                    line_end@,
                    line_separator@,
                    (y + 1) as int,
                ));
            }
            y += 1;
        }
        out.append(line_separator);
        out
    }
}

} // verus!
