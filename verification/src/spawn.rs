use vstd::prelude::*;
use rand::RngExt;
use crate::board::is_grid;
use crate::board::lemma_board_view_is_grid;

verus! {

/// No cell of the board is empty, so no tile can spawn.
pub open spec fn full_board(g: Seq<Seq<i16>>) -> bool {
    forall|r: int, c: int| 0 <= r < 4 && 0 <= c < 4 ==> #[trigger] g[r][c] != 0
}

/// The board `g` with the cell at (`r`, `c`) replaced by `v`.
pub open spec fn set_cell(g: Seq<Seq<i16>>, r: int, c: int, v: i16) -> Seq<Seq<i16>> {
    g.update(r, g[r].update(c, v))
}

/// Exactly one tile of value 2 or 4 appeared in a cell that was empty in
/// `g0`; every other cell is unchanged.
pub open spec fn spawned(g0: Seq<Seq<i16>>, g1: Seq<Seq<i16>>) -> bool {
    exists|r: int, c: int|
        #![auto]
        0 <= r < 4 && 0 <= c < 4 && g0[r][c] == 0 && (g1[r][c] == 2 || g1[r][c] == 4) && g1
            == set_cell(g0, r, c, g1[r][c])
}

/// Relies on rand's `RngExt::random_range` over `0..n`: the sample lies in
/// the given range, which `n >= 1` keeps nonempty, so the call does not
/// panic. (`rand::rng` itself aborts only if the operating system cannot
/// seed the generator.)
#[verifier::external_body]
fn random_below(n: usize) -> (r: usize)
    requires
        1 <= n,
    ensures
        r < n,
{
    rand::rng().random_range(0..n)
}

/// Write the spawned tile: the cell at (`row`, `col`) takes the value 2 when
/// the ten-sided draw is 0 through 8 and the value 4 when it is 9, so a 4
/// appears with probability one in ten.
pub fn place_new_block(board: &mut [[i16; 4]; 4], row: usize, col: usize, draw: usize)
    requires
        row < 4,
        col < 4,
        draw < 10,
    ensures
        final(board).deep_view() == set_cell(
            old(board).deep_view(),
            row as int,
            col as int,
            if draw < 9 {
                2i16
            } else {
                4i16
            },
        ),
{
    let ghost g0 = board.deep_view();
    let val: i16 = if draw < 9 {
        2
    } else {
        4
    };
    let mut cells = board[row];
    cells[col] = val;
    board[row] = cells;
    proof {
        assert(forall|i: int|
            0 <= i < 4 && i != row ==> #[trigger] board.deep_view()[i] == g0[i]);
        assert(cells@ =~= cells.deep_view());
        assert(board.deep_view()[row as int] =~= g0[row as int].update(col as int, val));
        assert(board.deep_view() =~~= set_cell(g0, row as int, col as int, val));
    }
}

/// Spawn one new tile after an accepted move: pick one empty cell uniformly
/// at random, in it place a 2 (nine draws in ten) or a 4 (one draw in ten).
/// On a full board this is a no-op; the game has no further spawn to offer.
pub fn add_new_block(board: &mut [[i16; 4]; 4])
    ensures
        full_board(old(board).deep_view()) ==> final(board).deep_view() == old(
            board,
        ).deep_view(),
        !full_board(old(board).deep_view()) ==> spawned(
            old(board).deep_view(),
            final(board).deep_view(),
        ),
{
    let ghost g0 = board.deep_view();
    proof {
        lemma_board_view_is_grid(*board);
    }
    let mut blank_cells: Vec<(usize, usize)> = Vec::new();
    for row in 0..4usize
        invariant
            is_grid(g0),
            g0 == board.deep_view(),
            forall|k: int|
                0 <= k < blank_cells@.len() ==> {
                    let cell = #[trigger] blank_cells@[k];
                    cell.0 < 4 && cell.1 < 4 && g0[cell.0 as int][cell.1 as int] == 0
                },
            forall|r: int, c: int|
                0 <= r < row && 0 <= c < 4 && g0[r][c] == 0 ==> blank_cells@.contains(
                    (r as usize, c as usize),
                ),
    {
        for col in 0..4usize
            invariant
                is_grid(g0),
                g0 == board.deep_view(),
                row < 4,
                forall|k: int|
                    0 <= k < blank_cells@.len() ==> {
                        let cell = #[trigger] blank_cells@[k];
                        cell.0 < 4 && cell.1 < 4 && g0[cell.0 as int][cell.1 as int] == 0
                    },
                forall|r: int, c: int|
                    0 <= r < row && 0 <= c < 4 && g0[r][c] == 0 ==> blank_cells@.contains(
                        (r as usize, c as usize),
                    ),
                forall|c: int|
                    0 <= c < col && g0[row as int][c] == 0 ==> blank_cells@.contains(
                        (row, c as usize),
                    ),
        {
            if board[row][col] == 0 {
                let ghost before = blank_cells@;
                blank_cells.push((row, col));
                proof {
                    assert(blank_cells@ == before.push((row, col)));
                    assert(blank_cells@[before.len() as int] == (row, col));
                    assert forall|x: (usize, usize)|
                        before.contains(x) implies #[trigger] blank_cells@.contains(x) by {
                        let k = choose|k: int| 0 <= k < before.len() && before[k] == x;
                        assert(blank_cells@[k] == x);
                    }
                }
            }
        }
    }
    if blank_cells.len() == 0 {
        proof {
            assert forall|r: int, c: int| 0 <= r < 4 && 0 <= c < 4 implies #[trigger] g0[r][c]
                != 0 by {
                if g0[r][c] == 0 {
                    assert(blank_cells@.contains((r as usize, c as usize)));
                }
            }
        }
        return ;
    }
    let idx = random_below(blank_cells.len());
    let cell = blank_cells[idx];
    let draw = random_below(10);
    place_new_block(board, cell.0, cell.1, draw);
    proof {
        let r = cell.0 as int;
        let c = cell.1 as int;
        assert(g0[r][c] == 0);
        assert(!full_board(g0));
        let v: i16 = if draw < 9 {
            2i16
        } else {
            4i16
        };
        assert(board.deep_view() == set_cell(g0, r, c, v));
        assert(board.deep_view()[r][c] == v) by {
            assert(set_cell(g0, r, c, v)[r] == g0[r].update(c, v));
        }
        assert(spawned(g0, board.deep_view()));
    }
}

} // verus!
