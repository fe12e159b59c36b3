use vstd::prelude::*;

verus! {

/// A tile value the engine accepts as input to a collapse: non-negative and
/// small enough that one merge (a doubling) still fits in an `i16`.
pub open spec fn cell_ok(v: i16) -> bool {
    0 <= v && v + v <= i16::MAX
}

/// Every cell of the row is an acceptable tile value.
pub open spec fn row_ok(s: Seq<i16>) -> bool {
    forall|i: int| 0 <= i < s.len() ==> cell_ok(#[trigger] s[i])
}

/// A run of `n` empty cells.
pub open spec fn zero_cells(n: nat) -> Seq<i16> {
    Seq::new(n, |i: int| 0i16)
}

/// The nonzero values of a row, in order.
pub open spec fn nonzeros(s: Seq<i16>) -> Seq<i16>
    decreases s.len(),
{
    if s.len() == 0 {
        Seq::empty()
    } else {
        let rest = nonzeros(s.drop_last());
        if s.last() == 0i16 {
            rest
        } else {
            rest.push(s.last())
        }
    }
}

/// Compaction: the nonzero values slide toward the left, keeping their
/// relative order; the vacated cells on the right become empty.
pub open spec fn compact_row(s: Seq<i16>) -> Seq<i16> {
    nonzeros(s) + zero_cells((s.len() - nonzeros(s).len()) as nat)
}

/// One left-to-right merge pass: the leftmost adjacent pair of equal nonzero
/// values becomes a doubled value and an empty cell, and the scan resumes to
/// the right of the pair, so a merge result is never merged again in the same
/// pass.
pub open spec fn merge_row(s: Seq<i16>) -> Seq<i16>
    decreases s.len(),
{
    if s.len() < 2 {
        s
    } else if s[0] != 0i16 && s[0] == s[1] {
        seq![(s[0] + s[0]) as i16, 0i16] + merge_row(s.skip(2))
    } else {
        seq![s[0]] + merge_row(s.skip(1))
    }
}

/// The canonical leftward collapse of one row: compact, merge once, and
/// compact again to close the gaps the merges opened.
pub open spec fn collapse_row(s: Seq<i16>) -> Seq<i16> {
    compact_row(merge_row(compact_row(s)))
}

pub proof fn lemma_nonzeros_len(s: Seq<i16>)
    ensures
        nonzeros(s).len() <= s.len(),
    decreases s.len(),
{
    if s.len() > 0 {
        lemma_nonzeros_len(s.drop_last());
    }
}

pub proof fn lemma_compact_row_len(s: Seq<i16>)
    ensures
        compact_row(s).len() == s.len(),
{
    lemma_nonzeros_len(s);
}

pub proof fn lemma_merge_row_len(s: Seq<i16>)
    ensures
        merge_row(s).len() == s.len(),
    decreases s.len(),
{
    if s.len() < 2 {
    } else if s[0] != 0i16 && s[0] == s[1] {
        lemma_merge_row_len(s.skip(2));
    } else {
        lemma_merge_row_len(s.skip(1));
    }
}

pub proof fn lemma_collapse_row_len(s: Seq<i16>)
    ensures
        collapse_row(s).len() == s.len(),
{
    lemma_compact_row_len(s);
    lemma_merge_row_len(compact_row(s));
    lemma_compact_row_len(merge_row(compact_row(s)));
}

pub proof fn lemma_nonzeros_ok(s: Seq<i16>)
    requires
        row_ok(s),
    ensures
        row_ok(nonzeros(s)),
    decreases s.len(),
{
    if s.len() > 0 {
        assert(row_ok(s.drop_last())) by {
            assert(forall|i: int|
                0 <= i < s.drop_last().len() ==> #[trigger] s.drop_last()[i] == s[i]);
        }
        lemma_nonzeros_ok(s.drop_last());
    }
}

pub proof fn lemma_compact_row_ok(s: Seq<i16>)
    requires
        row_ok(s),
    ensures
        row_ok(compact_row(s)),
{
    lemma_nonzeros_ok(s);
    lemma_nonzeros_len(s);
}

/// Compaction: slide every nonzero value of the row toward the left,
/// preserving relative order, and fill the vacated cells with zeros.
pub fn move_blocks_row(board: &mut [i16; 4])
    ensures
        final(board)@ == compact_row(old(board)@),
{
    let src: [i16; 4] = *board;
    board[0] = 0;
    board[1] = 0;
    board[2] = 0;
    board[3] = 0;
    let mut k: usize = 0;
    for i in 0..4usize
        invariant
            k <= i <= 4,
            src == *old(board),
            board@.len() == 4,
            board@.subrange(0, k as int) == nonzeros(src@.subrange(0, i as int)),
            forall|j: int| k <= j < 4 ==> board@[j] == 0i16,
    {
        proof {
            assert(src@.subrange(0, i as int + 1).drop_last() =~= src@.subrange(0, i as int));
            lemma_nonzeros_len(src@.subrange(0, i as int));
        }
        if src[i] != 0 {
            board[k] = src[i];
            k += 1;
            proof {
                assert(board@.subrange(0, k as int) =~= nonzeros(src@.subrange(0, i as int + 1)));
            }
        } else {
            proof {
                assert(board@.subrange(0, k as int) =~= nonzeros(src@.subrange(0, i as int + 1)));
            }
        }
    }
    proof {
        assert(src@.subrange(0, 4) =~= src@);
        lemma_nonzeros_len(src@);
        assert(board@ =~= compact_row(src@));
    }
}

/// One merge pass over the row, scanning the index pairs left to right: a
/// pair of equal nonzero neighbours becomes a doubled value and an empty
/// cell, and a freshly written merge result is never the right side of a
/// later pair in the same pass.
pub fn merge_blocks_row(board: &mut [i16; 4])
    requires
        row_ok(old(board)@),
    ensures
        final(board)@ == merge_row(old(board)@),
{
    let ghost a = board@;
    proof {
        reveal_with_fuel(merge_row, 5);
    }
    if board[0] != 0 && board[0] == board[1] {
        let v = board[0];
        board[0] = v + v;
        board[1] = 0;
    }
    if board[1] != 0 && board[1] == board[2] {
        let v = board[1];
        board[1] = v + v;
        board[2] = 0;
    }
    if board[2] != 0 && board[2] == board[3] {
        let v = board[2];
        board[2] = v + v;
        board[3] = 0;
    }
    proof {
        assert(a.skip(1).skip(1) =~= a.skip(2));
        assert(a.skip(2).skip(1) =~= a.skip(3));
        assert(a.skip(1).skip(2) =~= a.skip(3));
        assert(board@ =~= merge_row(a));
    }
}

/// The full canonical collapse of one row toward the left: compact, merge
/// once, and compact again.
pub fn collapse_blocks_row(board: &mut [i16; 4])
    requires
        row_ok(old(board)@),
    ensures
        final(board)@ == collapse_row(old(board)@),
{
    proof {
        lemma_compact_row_ok(board@);
    }
    move_blocks_row(board);
    merge_blocks_row(board);
    move_blocks_row(board);
}

} // verus!
