use vstd::prelude::*;
use crate::rows::{
    row_ok, zero_cells, nonzeros, compact_row, merge_row, collapse_row,
    lemma_nonzeros_len, lemma_compact_row_ok, lemma_collapse_row_len,
};
use crate::board::{
    Direction, is_grid, board_ok, mirror_grid, transpose_grid, collapse_left_grid, collapse_grid,
    lemma_mirror_grid_ok, lemma_transpose_grid_ok,
};
use crate::spawn::{spawned, set_cell};

verus! {

/// The sum of all tile values in a row.
pub open spec fn sum_row(s: Seq<i16>) -> int
    decreases s.len(),
{
    if s.len() == 0 {
        0
    } else {
        s[0] + sum_row(s.skip(1))
    }
}

/// One when the cell holds a tile, zero when it is empty.
pub open spec fn tile_ind(v: i16) -> int {
    if v == 0i16 {
        0
    } else {
        1
    }
}

/// How many cells of the row hold a tile, that is, are nonzero.
pub open spec fn tiles_row(s: Seq<i16>) -> int
    decreases s.len(),
{
    if s.len() == 0 {
        0
    } else {
        tile_ind(s[0]) + tiles_row(s.skip(1))
    }
}

/// The sum of all tile values on the board.
pub open spec fn sum_grid(g: Seq<Seq<i16>>) -> int
    recommends
        is_grid(g),
{
    sum_row(g[0]) + sum_row(g[1]) + sum_row(g[2]) + sum_row(g[3])
}

/// How many cells of the board hold a tile.
pub open spec fn tiles_grid(g: Seq<Seq<i16>>) -> int
    recommends
        is_grid(g),
{
    tiles_row(g[0]) + tiles_row(g[1]) + tiles_row(g[2]) + tiles_row(g[3])
}

proof fn lemma_sum_concat(a: Seq<i16>, b: Seq<i16>)
    ensures
        sum_row(a + b) == sum_row(a) + sum_row(b),
        tiles_row(a + b) == tiles_row(a) + tiles_row(b),
    decreases a.len(),
{
    if a.len() == 0 {
        assert(a + b =~= b);
    } else {
        assert((a + b).skip(1) =~= a.skip(1) + b);
        lemma_sum_concat(a.skip(1), b);
    }
}

proof fn lemma_sum_single(x: i16)
    ensures
        sum_row(seq![x]) == x,
        tiles_row(seq![x]) == tile_ind(x),
{
    reveal_with_fuel(sum_row, 2);
    reveal_with_fuel(tiles_row, 2);
    assert(seq![x].skip(1) =~= Seq::<i16>::empty());
}

proof fn lemma_sum_zeros(n: nat)
    ensures
        sum_row(zero_cells(n)) == 0,
        tiles_row(zero_cells(n)) == 0,
    decreases n,
{
    if n > 0 {
        assert(zero_cells(n).skip(1) =~= zero_cells((n - 1) as nat));
        lemma_sum_zeros((n - 1) as nat);
    }
}

proof fn lemma_nonzeros_sums(s: Seq<i16>)
    ensures
        sum_row(nonzeros(s)) == sum_row(s),
        tiles_row(nonzeros(s)) == tiles_row(s),
    decreases s.len(),
{
    if s.len() > 0 {
        let rest = s.drop_last();
        lemma_nonzeros_sums(rest);
        assert(s =~= rest + seq![s.last()]);
        lemma_sum_concat(rest, seq![s.last()]);
        lemma_sum_single(s.last());
        if s.last() != 0i16 {
            assert(nonzeros(s) =~= nonzeros(rest) + seq![s.last()]);
            lemma_sum_concat(nonzeros(rest), seq![s.last()]);
        }
    }
}

proof fn lemma_compact_row_sums(s: Seq<i16>)
    ensures
        sum_row(compact_row(s)) == sum_row(s),
        tiles_row(compact_row(s)) == tiles_row(s),
{
    lemma_nonzeros_len(s);
    lemma_nonzeros_sums(s);
    lemma_sum_concat(nonzeros(s), zero_cells((s.len() - nonzeros(s).len()) as nat));
    lemma_sum_zeros((s.len() - nonzeros(s).len()) as nat);
}

proof fn lemma_skip_ok(s: Seq<i16>, n: int)
    requires
        row_ok(s),
        0 <= n <= s.len(),
    ensures
        row_ok(s.skip(n)),
{
    assert(forall|i: int| 0 <= i < s.skip(n).len() ==> #[trigger] s.skip(n)[i] == s[i + n]);
}

proof fn lemma_merge_row_sums(s: Seq<i16>)
    requires
        row_ok(s),
    ensures
        sum_row(merge_row(s)) == sum_row(s),
        tiles_row(merge_row(s)) <= tiles_row(s),
    decreases s.len(),
{
    if s.len() < 2 {
    } else if s[0] != 0i16 && s[0] == s[1] {
        reveal_with_fuel(sum_row, 3);
        reveal_with_fuel(tiles_row, 3);
        lemma_skip_ok(s, 2);
        lemma_merge_row_sums(s.skip(2));
        let d = (s[0] + s[0]) as i16;
        assert(seq![d, 0i16] + merge_row(s.skip(2)) =~= seq![d] + (seq![0i16] + merge_row(
            s.skip(2),
        )));
        lemma_sum_concat(seq![d], seq![0i16] + merge_row(s.skip(2)));
        lemma_sum_concat(seq![0i16], merge_row(s.skip(2)));
        lemma_sum_single(d);
        lemma_sum_single(0i16);
        assert(s.skip(1).skip(1) =~= s.skip(2));
        assert(sum_row(s) == s[0] + s[1] + sum_row(s.skip(2)));
        assert(tiles_row(s) == 2 + tiles_row(s.skip(2)));
    } else {
        lemma_skip_ok(s, 1);
        lemma_merge_row_sums(s.skip(1));
        lemma_sum_concat(seq![s[0]], merge_row(s.skip(1)));
        lemma_sum_single(s[0]);
    }
}

/// Collapsing one row keeps the sum of its tile values exactly, and never
/// increases how many tiles it holds: a merge turns two equal tiles of value
/// `v` into one tile of value `2 v` and an empty cell.
pub proof fn lemma_collapse_row_sums(s: Seq<i16>)
    requires
        row_ok(s),
    ensures
        sum_row(collapse_row(s)) == sum_row(s),
        tiles_row(collapse_row(s)) <= tiles_row(s),
{
    lemma_compact_row_sums(s);
    lemma_compact_row_ok(s);
    lemma_merge_row_sums(compact_row(s));
    lemma_compact_row_sums(merge_row(compact_row(s)));
}

proof fn lemma_sum_row4(s: Seq<i16>)
    requires
        s.len() == 4,
    ensures
        sum_row(s) == s[0] + s[1] + s[2] + s[3],
        tiles_row(s) == tile_ind(s[0]) + tile_ind(s[1]) + tile_ind(s[2]) + tile_ind(s[3]),
{
    reveal_with_fuel(sum_row, 6);
    reveal_with_fuel(tiles_row, 6);
    assert(s.skip(1).len() == 3);
    assert(s.skip(1).skip(1).len() == 2);
    assert(s.skip(1).skip(1).skip(1).len() == 1);
    assert(s.skip(1).skip(1).skip(1).skip(1).len() == 0);
    assert(s.skip(1)[0] == s[1]);
    assert(s.skip(1).skip(1)[0] == s[2]);
    assert(s.skip(1).skip(1).skip(1)[0] == s[3]);
}

proof fn lemma_mirror_grid_sums(g: Seq<Seq<i16>>)
    requires
        is_grid(g),
    ensures
        sum_grid(mirror_grid(g)) == sum_grid(g),
        tiles_grid(mirror_grid(g)) == tiles_grid(g),
{
    assert forall|r: int| 0 <= r < 4 implies sum_row(#[trigger] mirror_grid(g)[r]) == sum_row(g[r])
        && tiles_row(mirror_grid(g)[r]) == tiles_row(g[r]) by {
        assert(mirror_grid(g)[r] == g[r].reverse());
        lemma_sum_row4(g[r]);
        lemma_sum_row4(g[r].reverse());
    }
}

#[verifier::rlimit(50)]
proof fn lemma_transpose_grid_sums(g: Seq<Seq<i16>>)
    requires
        is_grid(g),
    ensures
        sum_grid(transpose_grid(g)) == sum_grid(g),
        tiles_grid(transpose_grid(g)) == tiles_grid(g),
{
    let t = transpose_grid(g);
    lemma_sum_row4(g[0]);
    lemma_sum_row4(g[1]);
    lemma_sum_row4(g[2]);
    lemma_sum_row4(g[3]);
    lemma_sum_row4(t[0]);
    lemma_sum_row4(t[1]);
    lemma_sum_row4(t[2]);
    lemma_sum_row4(t[3]);
    assert(forall|r: int, c: int| 0 <= r < 4 && 0 <= c < 4 ==> #[trigger] t[r][c] == g[c][r]);
}

proof fn lemma_mirror_is_grid(g: Seq<Seq<i16>>)
    requires
        is_grid(g),
    ensures
        is_grid(mirror_grid(g)),
{
    assert(forall|r: int|
        0 <= r < 4 ==> (#[trigger] mirror_grid(g)[r]).len() == g[r].reverse().len());
}

proof fn lemma_transpose_is_grid(g: Seq<Seq<i16>>)
    requires
        is_grid(g),
    ensures
        is_grid(transpose_grid(g)),
{
}

proof fn lemma_collapse_left_is_grid(g: Seq<Seq<i16>>)
    requires
        is_grid(g),
    ensures
        is_grid(collapse_left_grid(g)),
{
    assert forall|r: int| 0 <= r < 4 implies (#[trigger] collapse_left_grid(g)[r]).len() == 4 by {
        lemma_collapse_row_len(g[r]);
    }
}

proof fn lemma_collapse_left_grid_sums(g: Seq<Seq<i16>>)
    requires
        is_grid(g),
        board_ok(g),
    ensures
        sum_grid(collapse_left_grid(g)) == sum_grid(g),
        tiles_grid(collapse_left_grid(g)) <= tiles_grid(g),
{
    lemma_collapse_row_sums(g[0]);
    lemma_collapse_row_sums(g[1]);
    lemma_collapse_row_sums(g[2]);
    lemma_collapse_row_sums(g[3]);
    assert(collapse_left_grid(g)[0] == collapse_row(g[0]));
    assert(collapse_left_grid(g)[1] == collapse_row(g[1]));
    assert(collapse_left_grid(g)[2] == collapse_row(g[2]));
    assert(collapse_left_grid(g)[3] == collapse_row(g[3]));
}

/// Conservation under a collapse, in any direction and before any spawn:
/// the number of tiles never increases, and the sum of all tile values is
/// kept exactly — a merge trades two tiles of value `v` for one of `2 v`,
/// so only a spawn can raise the sum.
pub proof fn lemma_collapse_conserves(g: Seq<Seq<i16>>, direction: Direction)
    requires
        is_grid(g),
        board_ok(g),
    ensures
        tiles_grid(collapse_grid(g, direction)) <= tiles_grid(g),
        sum_grid(collapse_grid(g, direction)) == sum_grid(g),
{
    match direction {
        Direction::Left => {
            lemma_collapse_left_grid_sums(g);
        },
        Direction::Right => {
            lemma_mirror_grid_ok(g);
            lemma_mirror_grid_sums(g);
            lemma_collapse_left_grid_sums(mirror_grid(g));
            lemma_collapse_left_is_grid(mirror_grid(g));
            lemma_mirror_grid_sums(collapse_left_grid(mirror_grid(g)));
        },
        Direction::Up => {
            lemma_transpose_grid_ok(g);
            lemma_transpose_grid_sums(g);
            lemma_collapse_left_grid_sums(transpose_grid(g));
            lemma_collapse_left_is_grid(transpose_grid(g));
            lemma_transpose_grid_sums(collapse_left_grid(transpose_grid(g)));
        },
        Direction::Down => {
            lemma_transpose_grid_ok(g);
            lemma_transpose_grid_sums(g);
            lemma_mirror_grid_ok(transpose_grid(g));
            lemma_mirror_grid_sums(transpose_grid(g));
            lemma_collapse_left_grid_sums(mirror_grid(transpose_grid(g)));
            lemma_collapse_left_is_grid(mirror_grid(transpose_grid(g)));
            lemma_mirror_grid_sums(collapse_left_grid(mirror_grid(transpose_grid(g))));
            lemma_mirror_is_grid(collapse_left_grid(mirror_grid(transpose_grid(g))));
            lemma_transpose_grid_sums(
                mirror_grid(collapse_left_grid(mirror_grid(transpose_grid(g)))),
            );
        },
    }
}

/// No two adjacent cells of the row hold equal nonzero values, so a
/// further leftward merge pass over it would change nothing.
pub open spec fn no_merge_pair(s: Seq<i16>) -> bool {
    forall|i: int| 1 <= i < s.len() ==> !((#[trigger] s[i]) == s[i - 1] && s[i] != 0i16)
}

/// No row of the board offers a merge to a further leftward pass.
pub open spec fn settled(g: Seq<Seq<i16>>) -> bool {
    forall|r: int| 0 <= r < g.len() ==> no_merge_pair(#[trigger] g[r])
}

/// The board as the canonical leftward collapse sees it: mirrored or
/// transposed so that the move's direction becomes Left.
pub open spec fn leftward_frame(g: Seq<Seq<i16>>, direction: Direction) -> Seq<Seq<i16>> {
    match direction {
        Direction::Left => g,
        Direction::Right => mirror_grid(g),
        Direction::Up => transpose_grid(g),
        Direction::Down => mirror_grid(transpose_grid(g)),
    }
}

proof fn lemma_nonzeros_all_nonzero(s: Seq<i16>)
    ensures
        forall|i: int| 0 <= i < nonzeros(s).len() ==> (#[trigger] nonzeros(s)[i]) != 0i16,
    decreases s.len(),
{
    if s.len() > 0 {
        lemma_nonzeros_all_nonzero(s.drop_last());
        let rest = nonzeros(s.drop_last());
        if s.last() != 0i16 {
            assert(forall|i: int|
                0 <= i < rest.len() ==> (#[trigger] rest.push(s.last())[i]) == rest[i]);
            assert(rest.push(s.last())[rest.len() as int] == s.last());
        }
    }
}

proof fn lemma_nonzeros_fixed(s: Seq<i16>)
    requires
        forall|i: int| 0 <= i < s.len() ==> (#[trigger] s[i]) != 0i16,
    ensures
        nonzeros(s) == s,
    decreases s.len(),
{
    if s.len() > 0 {
        assert(forall|i: int|
            0 <= i < s.drop_last().len() ==> (#[trigger] s.drop_last()[i]) == s[i]);
        lemma_nonzeros_fixed(s.drop_last());
        assert(nonzeros(s) =~= s);
    }
}

proof fn lemma_nonzeros_pad(a: Seq<i16>, n: nat)
    ensures
        nonzeros(a + zero_cells(n)) == nonzeros(a),
    decreases n,
{
    if n == 0 {
        assert(a + zero_cells(n) =~= a);
    } else {
        let w = a + zero_cells(n);
        assert(w.drop_last() =~= a + zero_cells((n - 1) as nat));
        assert(w.last() == 0i16);
        lemma_nonzeros_pad(a, (n - 1) as nat);
    }
}

/// Compacting an already compacted row changes nothing.
proof fn lemma_compact_idempotent(s: Seq<i16>)
    ensures
        compact_row(compact_row(s)) == compact_row(s),
{
    let c = compact_row(s);
    lemma_nonzeros_len(s);
    lemma_nonzeros_pad(nonzeros(s), (s.len() - nonzeros(s).len()) as nat);
    lemma_nonzeros_all_nonzero(s);
    lemma_nonzeros_fixed(nonzeros(s));
    assert(nonzeros(c) == nonzeros(s));
    assert(compact_row(c) =~= c);
}

proof fn lemma_merge_fixed(s: Seq<i16>)
    requires
        no_merge_pair(s),
    ensures
        merge_row(s) == s,
    decreases s.len(),
{
    if s.len() < 2 {
    } else {
        assert(!(s[1] == s[0] && s[1] != 0i16));
        assert(no_merge_pair(s.skip(1))) by {
            assert(forall|i: int|
                0 <= i < s.skip(1).len() ==> (#[trigger] s.skip(1)[i]) == s[i + 1]);
        }
        lemma_merge_fixed(s.skip(1));
        assert(seq![s[0]] + s.skip(1) =~= s);
    }
}

/// A compacted row with no adjacent equal nonzero pair is a fixed point of
/// the collapse.
proof fn lemma_collapse_row_fixed(s: Seq<i16>)
    requires
        compact_row(s) == s,
        no_merge_pair(s),
    ensures
        collapse_row(s) == s,
{
    lemma_merge_fixed(s);
}

/// The collapse of any row is compacted.
proof fn lemma_collapse_row_compacted(s: Seq<i16>)
    ensures
        compact_row(collapse_row(s)) == collapse_row(s),
{
    lemma_compact_idempotent(merge_row(compact_row(s)));
}

proof fn lemma_collapse_left_fixed(g: Seq<Seq<i16>>)
    requires
        is_grid(g),
        settled(collapse_left_grid(g)),
    ensures
        collapse_left_grid(collapse_left_grid(g)) == collapse_left_grid(g),
{
    let cl = collapse_left_grid(g);
    assert forall|r: int| 0 <= r < 4 implies collapse_row(#[trigger] cl[r]) == cl[r] by {
        assert(cl[r] == collapse_row(g[r]));
        lemma_collapse_row_compacted(g[r]);
        assert(no_merge_pair(cl[r]));
        lemma_collapse_row_fixed(cl[r]);
    }
    assert(collapse_left_grid(cl) =~= cl);
}

proof fn lemma_mirror_involution(g: Seq<Seq<i16>>)
    requires
        is_grid(g),
    ensures
        mirror_grid(mirror_grid(g)) == g,
{
    assert forall|r: int| 0 <= r < 4 implies #[trigger] mirror_grid(mirror_grid(g))[r] == g[r] by {
        let m = mirror_grid(g)[r];
        assert(m == g[r].reverse());
        assert(m.reverse() =~= g[r]);
    }
    assert(mirror_grid(mirror_grid(g)) =~= g);
}

proof fn lemma_transpose_involution(g: Seq<Seq<i16>>)
    requires
        is_grid(g),
    ensures
        transpose_grid(transpose_grid(g)) == g,
{
    assert forall|r: int| 0 <= r < 4 implies #[trigger] transpose_grid(transpose_grid(g))[r]
        == g[r] by {
        assert(transpose_grid(transpose_grid(g))[r] =~= g[r]);
    }
    assert(transpose_grid(transpose_grid(g)) =~= g);
}

/// Idempotence of the collapse when it is iterated without a spawn: once a
/// collapse has settled the board, so that no two adjacent equal nonzero
/// tiles remain along the direction of the move, a second identical
/// collapse changes nothing. The proviso cannot be dropped: the row
/// [2, 2, 2, 2] collapses Left to [4, 4, 0, 0], which a second Left
/// collapse merges again.
pub proof fn lemma_collapse_idempotent(g: Seq<Seq<i16>>, direction: Direction)
    requires
        is_grid(g),
        settled(collapse_left_grid(leftward_frame(g, direction))),
    ensures
        collapse_grid(collapse_grid(g, direction), direction) == collapse_grid(g, direction),
{
    match direction {
        Direction::Left => {
            lemma_collapse_left_fixed(g);
        },
        Direction::Right => {
            let m = mirror_grid(g);
            lemma_mirror_is_grid(g);
            lemma_collapse_left_fixed(m);
            lemma_collapse_left_is_grid(m);
            lemma_mirror_involution(collapse_left_grid(m));
        },
        Direction::Up => {
            let m = transpose_grid(g);
            lemma_transpose_is_grid(g);
            lemma_collapse_left_fixed(m);
            lemma_collapse_left_is_grid(m);
            lemma_transpose_involution(collapse_left_grid(m));
        },
        Direction::Down => {
            let f = mirror_grid(transpose_grid(g));
            lemma_transpose_is_grid(g);
            lemma_mirror_is_grid(transpose_grid(g));
            lemma_collapse_left_fixed(f);
            lemma_collapse_left_is_grid(f);
            lemma_mirror_is_grid(collapse_left_grid(f));
            lemma_transpose_involution(mirror_grid(collapse_left_grid(f)));
            lemma_mirror_involution(collapse_left_grid(f));
        },
    }
}

/// Directional symmetry: collapsing a board Right equals mirroring each row,
/// collapsing Left, and mirroring back.
pub proof fn lemma_right_is_mirrored_left(g: Seq<Seq<i16>>)
    ensures
        collapse_grid(g, Direction::Right) == mirror_grid(
            collapse_grid(mirror_grid(g), Direction::Left),
        ),
{
}

/// Spawn placement: on a board with exactly one empty cell, a spawn puts
/// the new tile, a 2 or a 4, in that very cell and leaves every other cell
/// unchanged.
pub proof fn lemma_spawn_fills_single_empty(
    g0: Seq<Seq<i16>>,
    g1: Seq<Seq<i16>>,
    r: int,
    c: int,
)
    requires
        is_grid(g0),
        0 <= r < 4,
        0 <= c < 4,
        g0[r][c] == 0,
        forall|i: int, j: int|
            0 <= i < 4 && 0 <= j < 4 && (i != r || j != c) ==> (#[trigger] g0[i][j]) != 0,
        spawned(g0, g1),
    ensures
        g1[r][c] == 2 || g1[r][c] == 4,
        forall|i: int, j: int|
            0 <= i < 4 && 0 <= j < 4 && (i != r || j != c) ==> (#[trigger] g1[i][j]) == g0[i][j],
{
    let (rr, cc) = choose|rr: int, cc: int|
        #![auto]
        0 <= rr < 4 && 0 <= cc < 4 && g0[rr][cc] == 0 && (g1[rr][cc] == 2 || g1[rr][cc] == 4)
            && g1 == set_cell(g0, rr, cc, g1[rr][cc]);
    assert(rr == r && cc == c);
    assert(g1[r] == g0[r].update(c, g1[r][c]));
    assert forall|i: int, j: int|
        0 <= i < 4 && 0 <= j < 4 && (i != r || j != c) implies (#[trigger] g1[i][j])
        == g0[i][j] by {
        if i == r {
            assert(g1[i][j] == g0[i].update(c, g1[r][c])[j]);
        } else {
            assert(g1[i] == g0[i]);
        }
    }
}

} // verus!
