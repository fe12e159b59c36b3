use vstd::prelude::*;
use crate::rows::{cell_ok, row_ok, collapse_row, collapse_blocks_row};

verus! {

/// One of the four directions a move can slide the tiles.
#[derive(Clone, Copy, PartialEq, Eq, Structural, Debug)]
pub enum Direction {
    Up,
    Down,
    Left,
    Right,
}

/// The mathematical shape of a board: four rows of four cells.
pub open spec fn is_grid(g: Seq<Seq<i16>>) -> bool {
    g.len() == 4 && forall|r: int| 0 <= r < 4 ==> (#[trigger] g[r]).len() == 4
}

/// Every cell of the board is an acceptable tile value.
pub open spec fn board_ok(g: Seq<Seq<i16>>) -> bool {
    forall|r: int| 0 <= r < g.len() ==> row_ok(#[trigger] g[r])
}

/// The board with each row mirrored left-to-right.
pub open spec fn mirror_grid(g: Seq<Seq<i16>>) -> Seq<Seq<i16>> {
    Seq::new(g.len(), |r: int| g[r].reverse())
}

/// The board with rows and columns swapped.
pub open spec fn transpose_grid(g: Seq<Seq<i16>>) -> Seq<Seq<i16>> {
    Seq::new(g.len(), |r: int| Seq::new(g.len(), |c: int| g[c][r]))
}

/// Every row collapsed toward the left, independently.
pub open spec fn collapse_left_grid(g: Seq<Seq<i16>>) -> Seq<Seq<i16>> {
    Seq::new(g.len(), |r: int| collapse_row(g[r]))
}

/// The board after a collapse in the given direction. Left is canonical;
/// the other directions mirror or transpose into the leftward frame,
/// collapse there, and transform back.
pub open spec fn collapse_grid(g: Seq<Seq<i16>>, direction: Direction) -> Seq<Seq<i16>> {
    match direction {
        Direction::Left => collapse_left_grid(g),
        Direction::Right => mirror_grid(collapse_left_grid(mirror_grid(g))),
        Direction::Up => transpose_grid(collapse_left_grid(transpose_grid(g))),
        Direction::Down => transpose_grid(
            mirror_grid(collapse_left_grid(mirror_grid(transpose_grid(g)))),
        ),
    }
}

/// The view of an actual board value always has the grid shape.
pub proof fn lemma_board_view_is_grid(b: [[i16; 4]; 4])
    ensures
        is_grid(b.deep_view()),
{
    assert forall|r: int| 0 <= r < 4 implies (#[trigger] b.deep_view()[r]).len() == 4 by {
        assert(b.deep_view()[r] == b@[r].deep_view());
    }
}

pub proof fn lemma_mirror_grid_ok(g: Seq<Seq<i16>>)
    requires
        is_grid(g),
        board_ok(g),
    ensures
        is_grid(mirror_grid(g)),
        board_ok(mirror_grid(g)),
{
    assert forall|r: int| 0 <= r < mirror_grid(g).len() implies row_ok(
        #[trigger] mirror_grid(g)[r],
    ) by {
        let m = mirror_grid(g)[r];
        assert forall|j: int| 0 <= j < m.len() implies cell_ok(#[trigger] m[j]) by {
            assert(m[j] == g[r][g[r].len() - 1 - j]);
        }
    }
}

pub proof fn lemma_transpose_grid_ok(g: Seq<Seq<i16>>)
    requires
        is_grid(g),
        board_ok(g),
    ensures
        is_grid(transpose_grid(g)),
        board_ok(transpose_grid(g)),
{
    assert forall|r: int| 0 <= r < transpose_grid(g).len() implies row_ok(
        #[trigger] transpose_grid(g)[r],
    ) by {
        let t = transpose_grid(g)[r];
        assert forall|j: int| 0 <= j < t.len() implies cell_ok(#[trigger] t[j]) by {
            assert(t[j] == g[j][r]);
        }
    }
}

/// Mirror every row of the board in place.
pub fn reverse_board(board: &mut [[i16; 4]; 4])
    ensures
        final(board).deep_view() == mirror_grid(old(board).deep_view()),
{
    let ghost g0 = board.deep_view();
    proof {
        lemma_board_view_is_grid(*board);
    }
    for r in 0..4usize
        invariant
            is_grid(g0),
            board@.len() == 4,
            forall|i: int, j: int|
                0 <= i < r && 0 <= j < 4 ==> #[trigger] board.deep_view()[i][j] == g0[i][3 - j],
            forall|i: int| r <= i < 4 ==> #[trigger] board.deep_view()[i] == g0[i],
    {
        let ghost dprev = board.deep_view();
        let row = board[r];
        let mut rev = row;
        rev[0] = row[3];
        rev[1] = row[2];
        rev[2] = row[1];
        rev[3] = row[0];
        board[r] = rev;
        proof {
            assert(forall|i: int|
                0 <= i < 4 && i != r ==> #[trigger] board.deep_view()[i] == dprev[i]);
            assert(row@ =~= row.deep_view());
            assert(row.deep_view() == dprev[r as int]);
            assert(row@ =~= g0[r as int]);
            assert(rev@ =~= rev.deep_view());
            assert(board.deep_view()[r as int] =~= rev@);
            assert(forall|j: int|
                0 <= j < 4 ==> #[trigger] board.deep_view()[r as int][j] == g0[r as int][3 - j]);
        }
    }
    proof {
        lemma_board_view_is_grid(*board);
        assert(board.deep_view() =~~= mirror_grid(g0));
    }
}

/// Transpose the board in place: cell (r, c) moves to (c, r).
pub fn transpose_board(board: &mut [[i16; 4]; 4])
    ensures
        final(board).deep_view() == transpose_grid(old(board).deep_view()),
{
    let ghost g0 = board.deep_view();
    let a = *board;
    let mut row = a[0];
    row[1] = a[1][0];
    row[2] = a[2][0];
    row[3] = a[3][0];
    board[0] = row;
    let mut row = a[1];
    row[0] = a[0][1];
    row[2] = a[2][1];
    row[3] = a[3][1];
    board[1] = row;
    let mut row = a[2];
    row[0] = a[0][2];
    row[1] = a[1][2];
    row[3] = a[3][2];
    board[2] = row;
    let mut row = a[3];
    row[0] = a[0][3];
    row[1] = a[1][3];
    row[2] = a[2][3];
    board[3] = row;
    proof {
        assert(board.deep_view() =~~= transpose_grid(g0));
    }
}

/// Collapse every row of the board toward the left.
fn collapse_left_board(board: &mut [[i16; 4]; 4])
    requires
        board_ok(old(board).deep_view()),
    ensures
        final(board).deep_view() == collapse_left_grid(old(board).deep_view()),
{
    let ghost g0 = board.deep_view();
    proof {
        lemma_board_view_is_grid(*board);
    }
    for r in 0..4usize
        invariant
            is_grid(g0),
            board_ok(g0),
            board@.len() == 4,
            forall|i: int| 0 <= i < r ==> #[trigger] board.deep_view()[i] == collapse_row(g0[i]),
            forall|i: int| r <= i < 4 ==> #[trigger] board.deep_view()[i] == g0[i],
    {
        let ghost dprev = board.deep_view();
        let mut row = board[r];
        proof {
            assert(row.deep_view() == board.deep_view()[r as int]);
            assert(row@ =~= row.deep_view());
        }
        collapse_blocks_row(&mut row);
        board[r] = row;
        proof {
            assert(forall|i: int|
                0 <= i < 4 && i != r ==> #[trigger] board.deep_view()[i] == dprev[i]);
            assert(row@ =~= row.deep_view());
            assert(board.deep_view()[r as int] =~= collapse_row(g0[r as int]));
        }
    }
    proof {
        assert(board.deep_view() =~~= collapse_left_grid(g0));
    }
}

/// True exactly when the two boards hold the same sixteen cell values.
fn boards_equal(a: &[[i16; 4]; 4], b: &[[i16; 4]; 4]) -> (r: bool)
    ensures
        r <==> a.deep_view() == b.deep_view(),
{
    let r = a[0][0] == b[0][0] && a[0][1] == b[0][1] && a[0][2] == b[0][2] && a[0][3] == b[0][3]
        && a[1][0] == b[1][0] && a[1][1] == b[1][1] && a[1][2] == b[1][2] && a[1][3] == b[1][3]
        && a[2][0] == b[2][0] && a[2][1] == b[2][1] && a[2][2] == b[2][2] && a[2][3] == b[2][3]
        && a[3][0] == b[3][0] && a[3][1] == b[3][1] && a[3][2] == b[3][2] && a[3][3] == b[3][3];
    proof {
        assert(forall|i: int, j: int|
            0 <= i < 4 && 0 <= j < 4 ==> #[trigger] a.deep_view()[i][j] == a@[i]@[j]);
        assert(forall|i: int, j: int|
            0 <= i < 4 && 0 <= j < 4 ==> #[trigger] b.deep_view()[i][j] == b@[i]@[j]);
        if r {
            assert(a.deep_view() =~~= b.deep_view());
        } else if a.deep_view() == b.deep_view() {
            assert forall|i: int, j: int|
                0 <= i < 4 && 0 <= j < 4 implies a@[i]@[j] == #[trigger] b@[i]@[j] by {
                assert(a.deep_view()[i][j] == b.deep_view()[i][j]);
            }
            assert(r);
        }
    }
    r
}

/// Slide and merge every tile toward the given edge, without spawning.
/// Reports whether any cell changed; an unchanged board means the move is
/// not accepted and no tile may spawn.
pub fn collapse_board(board: &mut [[i16; 4]; 4], direction: Direction) -> (changed: bool)
    requires
        board_ok(old(board).deep_view()),
    ensures
        final(board).deep_view() == collapse_grid(old(board).deep_view(), direction),
        changed <==> final(board).deep_view() != old(board).deep_view(),
{
    let ghost g0 = board.deep_view();
    proof {
        lemma_board_view_is_grid(*board);
    }
    let shadow = *board;
    match direction {
        Direction::Left => {
            collapse_left_board(board);
        },
        Direction::Right => {
            reverse_board(board);
            proof {
                lemma_mirror_grid_ok(g0);
            }
            collapse_left_board(board);
            reverse_board(board);
        },
        Direction::Up => {
            transpose_board(board);
            proof {
                lemma_transpose_grid_ok(g0);
            }
            collapse_left_board(board);
            transpose_board(board);
        },
        Direction::Down => {
            transpose_board(board);
            proof {
                lemma_transpose_grid_ok(g0);
            }
            reverse_board(board);
            proof {
                lemma_mirror_grid_ok(transpose_grid(g0));
            }
            collapse_left_board(board);
            reverse_board(board);
            transpose_board(board);
        },
    }
    !boards_equal(&shadow, board)
}

/// One full move: slide and merge toward the given edge, and when any cell
/// changed — the move is accepted — spawn one new tile in a random empty
/// cell. A move that changes nothing leaves the board exactly as it was.
pub fn collapse_blocks(board: &mut [[i16; 4]; 4], direction: Direction)
    requires
        board_ok(old(board).deep_view()),
    ensures
        ({
            let g0 = old(board).deep_view();
            let g1 = final(board).deep_view();
            let collapsed = collapse_grid(g0, direction);
            if collapsed == g0 {
                g1 == g0
            } else if crate::spawn::full_board(collapsed) {
                g1 == collapsed
            } else {
                crate::spawn::spawned(collapsed, g1)
            }
        }),
{
    let changed = collapse_board(board, direction);
    if changed {
        crate::spawn::add_new_block(board);
    }
}

} // verus!
