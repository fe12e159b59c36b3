use game2048::board::{collapse_blocks, collapse_board, reverse_board, transpose_board, Direction};
use game2048::color::{color_tiles, TileColor};
use game2048::rows::{collapse_blocks_row, merge_blocks_row, move_blocks_row};
use game2048::spawn::{add_new_block, place_new_block};

#[test]
fn compaction_slides_left_preserving_order() {
    let mut row: [i16; 4] = [0, 2, 0, 4];
    move_blocks_row(&mut row);
    assert_eq!(row, [2, 4, 0, 0]);
}

#[test]
fn compaction_of_empty_row_is_noop() {
    let mut row: [i16; 4] = [0, 0, 0, 0];
    move_blocks_row(&mut row);
    assert_eq!(row, [0, 0, 0, 0]);
}

#[test]
fn merge_pass_doubles_leftmost_pair_once() {
    let mut row: [i16; 4] = [2, 2, 2, 2];
    merge_blocks_row(&mut row);
    assert_eq!(row, [4, 0, 4, 0]);
}

#[test]
fn merge_result_is_not_merged_again() {
    let mut row: [i16; 4] = [4, 2, 2, 0];
    merge_blocks_row(&mut row);
    // The 2+2 merge writes a 4 next to the first 4, but the pass is over.
    assert_eq!(row, [4, 4, 0, 0]);
}

#[test]
fn row_of_four_equal_tiles_collapses_to_two_doubles() {
    let mut row: [i16; 4] = [2, 2, 2, 2];
    collapse_blocks_row(&mut row);
    assert_eq!(row, [4, 4, 0, 0]);
}

#[test]
fn row_with_gap_merges_across_it() {
    let mut row: [i16; 4] = [2, 0, 2, 4];
    collapse_blocks_row(&mut row);
    assert_eq!(row, [4, 4, 0, 0]);
}

#[test]
fn three_equal_tiles_merge_leftmost_pair() {
    let mut row: [i16; 4] = [2, 2, 2, 0];
    collapse_blocks_row(&mut row);
    assert_eq!(row, [4, 2, 0, 0]);
}

#[test]
fn two_pairs_merge_in_one_move() {
    let mut row: [i16; 4] = [4, 4, 2, 2];
    collapse_blocks_row(&mut row);
    assert_eq!(row, [8, 4, 0, 0]);
}

#[test]
fn reverse_board_mirrors_each_row() {
    let mut board: [[i16; 4]; 4] = [
        [1, 2, 3, 4],
        [5, 6, 7, 8],
        [9, 10, 11, 12],
        [13, 14, 15, 16],
    ];
    reverse_board(&mut board);
    assert_eq!(
        board,
        [
            [4, 3, 2, 1],
            [8, 7, 6, 5],
            [12, 11, 10, 9],
            [16, 15, 14, 13],
        ]
    );
}

#[test]
fn transpose_board_swaps_rows_and_columns() {
    let mut board: [[i16; 4]; 4] = [
        [1, 2, 3, 4],
        [5, 6, 7, 8],
        [9, 10, 11, 12],
        [13, 14, 15, 16],
    ];
    transpose_board(&mut board);
    assert_eq!(
        board,
        [
            [1, 5, 9, 13],
            [2, 6, 10, 14],
            [3, 7, 11, 15],
            [4, 8, 12, 16],
        ]
    );
}

#[test]
fn empty_board_collapse_is_unchanged_in_every_direction() {
    for direction in [
        Direction::Up,
        Direction::Down,
        Direction::Left,
        Direction::Right,
    ] {
        let mut board: [[i16; 4]; 4] = [[0; 4]; 4];
        let changed = collapse_board(&mut board, direction);
        assert!(!changed);
        assert_eq!(board, [[0; 4]; 4]);
    }
}

#[test]
fn empty_board_move_spawns_nothing() {
    for direction in [
        Direction::Up,
        Direction::Down,
        Direction::Left,
        Direction::Right,
    ] {
        let mut board: [[i16; 4]; 4] = [[0; 4]; 4];
        collapse_blocks(&mut board, direction);
        assert_eq!(board, [[0; 4]; 4]);
    }
}

#[test]
fn collapse_left_moves_whole_board() {
    let mut board: [[i16; 4]; 4] = [
        [2, 2, 2, 2],
        [2, 0, 2, 4],
        [0, 0, 0, 8],
        [4, 2, 0, 2],
    ];
    let changed = collapse_board(&mut board, Direction::Left);
    assert!(changed);
    assert_eq!(
        board,
        [
            [4, 4, 0, 0],
            [4, 4, 0, 0],
            [8, 0, 0, 0],
            [4, 4, 0, 0],
        ]
    );
}

#[test]
fn collapse_right_mirrors_the_left_collapse() {
    let start: [[i16; 4]; 4] = [
        [2, 2, 4, 0],
        [0, 2, 0, 2],
        [8, 4, 4, 8],
        [2, 0, 0, 0],
    ];
    let mut direct = start;
    let changed = collapse_board(&mut direct, Direction::Right);
    assert!(changed);

    let mut mirrored = start;
    reverse_board(&mut mirrored);
    collapse_board(&mut mirrored, Direction::Left);
    reverse_board(&mut mirrored);
    assert_eq!(direct, mirrored);
    assert_eq!(
        direct,
        [
            [0, 0, 4, 4],
            [0, 0, 0, 4],
            [0, 8, 8, 8],
            [0, 0, 0, 2],
        ]
    );
}

#[test]
fn collapse_up_merges_columns_toward_top() {
    let mut board: [[i16; 4]; 4] = [
        [2, 0, 0, 4],
        [2, 4, 0, 0],
        [0, 4, 2, 4],
        [4, 0, 0, 4],
    ];
    let changed = collapse_board(&mut board, Direction::Up);
    assert!(changed);
    assert_eq!(
        board,
        [
            [4, 8, 2, 8],
            [4, 0, 0, 4],
            [0, 0, 0, 0],
            [0, 0, 0, 0],
        ]
    );
}

#[test]
fn collapse_down_merges_columns_toward_bottom() {
    let mut board: [[i16; 4]; 4] = [
        [2, 4, 2, 2],
        [2, 4, 0, 2],
        [4, 4, 0, 2],
        [4, 4, 2, 2],
    ];
    let changed = collapse_board(&mut board, Direction::Down);
    assert!(changed);
    assert_eq!(
        board,
        [
            [0, 0, 0, 0],
            [0, 0, 0, 0],
            [4, 8, 0, 4],
            [8, 8, 4, 4],
        ]
    );
}

#[test]
fn full_board_without_pairs_reports_unchanged() {
    let start: [[i16; 4]; 4] = [
        [2, 4, 2, 4],
        [4, 2, 4, 2],
        [2, 4, 2, 4],
        [4, 2, 4, 2],
    ];
    for direction in [
        Direction::Up,
        Direction::Down,
        Direction::Left,
        Direction::Right,
    ] {
        let mut board = start;
        let changed = collapse_board(&mut board, direction);
        assert!(!changed);
        assert_eq!(board, start);
    }
}

#[test]
fn settled_collapse_is_idempotent_without_spawn() {
    let mut board: [[i16; 4]; 4] = [
        [0, 2, 4, 8],
        [0, 4, 0, 4],
        [16, 0, 0, 16],
        [2, 4, 8, 16],
    ];
    collapse_board(&mut board, Direction::Left);
    assert_eq!(
        board,
        [
            [2, 4, 8, 0],
            [8, 0, 0, 0],
            [32, 0, 0, 0],
            [2, 4, 8, 16],
        ]
    );
    let once = board;
    let changed = collapse_board(&mut board, Direction::Left);
    assert!(!changed);
    assert_eq!(board, once);
}

#[test]
fn collapse_conserves_sum_and_never_adds_tiles() {
    let start: [[i16; 4]; 4] = [
        [2, 2, 4, 8],
        [0, 4, 4, 4],
        [16, 0, 2, 16],
        [2, 4, 8, 16],
    ];
    let sum = |b: &[[i16; 4]; 4]| -> i32 {
        b.iter().flatten().map(|&v| v as i32).sum()
    };
    let tiles = |b: &[[i16; 4]; 4]| -> usize {
        b.iter().flatten().filter(|&&v| v != 0).count()
    };
    for direction in [
        Direction::Up,
        Direction::Down,
        Direction::Left,
        Direction::Right,
    ] {
        let mut board = start;
        collapse_board(&mut board, direction);
        assert_eq!(sum(&board), sum(&start));
        assert!(tiles(&board) <= tiles(&start));
    }
}

#[test]
fn spawn_on_full_board_changes_nothing() {
    let start: [[i16; 4]; 4] = [
        [2, 4, 2, 4],
        [4, 2, 4, 2],
        [2, 4, 2, 4],
        [4, 2, 4, 2],
    ];
    let mut board = start;
    add_new_block(&mut board);
    assert_eq!(board, start);
}

#[test]
fn spawn_with_single_empty_cell_fills_that_cell() {
    let start: [[i16; 4]; 4] = [
        [2, 4, 2, 4],
        [4, 2, 4, 2],
        [2, 4, 0, 4],
        [4, 2, 4, 2],
    ];
    for _ in 0..50 {
        let mut board = start;
        add_new_block(&mut board);
        assert!(board[2][2] == 2 || board[2][2] == 4);
        for r in 0..4 {
            for c in 0..4 {
                if (r, c) != (2, 2) {
                    assert_eq!(board[r][c], start[r][c]);
                }
            }
        }
    }
}

#[test]
fn spawn_value_is_four_on_exactly_one_draw_in_ten() {
    for draw in 0..10 {
        let mut board: [[i16; 4]; 4] = [[0; 4]; 4];
        place_new_block(&mut board, 1, 3, draw);
        let expected: i16 = if draw < 9 { 2 } else { 4 };
        assert_eq!(board[1][3], expected);
    }
}

#[test]
fn accepted_move_spawns_exactly_one_tile() {
    for _ in 0..50 {
        let mut board: [[i16; 4]; 4] = [[0; 4]; 4];
        board[0][0] = 2;
        board[0][1] = 2;
        collapse_blocks(&mut board, Direction::Left);
        assert_eq!(board[0][0], 4);
        let spawned: Vec<i16> = board
            .iter()
            .flatten()
            .copied()
            .filter(|&v| v != 0)
            .collect();
        // The merged 4 plus one fresh tile of value 2 or 4.
        assert_eq!(spawned.len(), 2);
        let mut fresh = spawned.clone();
        fresh.remove(fresh.iter().position(|&v| v == 4).unwrap());
        assert!(fresh[0] == 2 || fresh[0] == 4);
    }
}

#[test]
fn rejected_move_spawns_nothing() {
    let start: [[i16; 4]; 4] = [
        [2, 0, 0, 0],
        [4, 0, 0, 0],
        [2, 0, 0, 0],
        [4, 0, 0, 0],
    ];
    let mut board = start;
    collapse_blocks(&mut board, Direction::Left);
    assert_eq!(board, start);
}

#[test]
fn color_lookup_matches_the_table() {
    assert_eq!(color_tiles(0), TileColor::DarkGrey);
    assert_eq!(color_tiles(2), TileColor::White);
    assert_eq!(color_tiles(4), TileColor::Cyan);
    assert_eq!(color_tiles(8), TileColor::Blue);
    assert_eq!(color_tiles(16), TileColor::Green);
    assert_eq!(color_tiles(32), TileColor::Yellow);
    assert_eq!(color_tiles(64), TileColor::Magenta);
    assert_eq!(color_tiles(128), TileColor::Red);
    assert_eq!(color_tiles(256), TileColor::DarkRed);
    assert_eq!(color_tiles(512), TileColor::DarkYellow);
    assert_eq!(color_tiles(1024), TileColor::DarkGreen);
    assert_eq!(color_tiles(2048), TileColor::DarkMagenta);
    assert_eq!(color_tiles(4096), TileColor::White);
    assert_eq!(color_tiles(6), TileColor::White);
}
