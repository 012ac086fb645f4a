//! The engine's laws: facts that tie the table, the moves and the counters
//! together, stated over the same spec functions the public contracts use.

use vstd::prelude::*;

use crate::direction::Direction;
use crate::game::count_empty_spec;
use crate::game::count_empty_upto;
use crate::game::count_tiles_spec;
use crate::game::count_tiles_upto;
use crate::game::execute_spec;
use crate::game::move_right_spec;
use crate::game::score_spec;
use crate::masks::lemma_row_cell;
use crate::masks::lemma_shift_zero;
use crate::masks::lemma_transpose_cell;
use crate::masks::nyb;
use crate::masks::row_of;
use crate::masks::rows_pack;
use crate::masks::transpose_spec;
use crate::moves::Moves;
use crate::rows::cells_small;
use crate::rows::cell_score;
use crate::rows::lemma_row_left_score_mono;
use crate::rows::lemma_slide_row_bound;
use crate::rows::lemma_slide_score_mono;
use crate::rows::row_cells;
use crate::rows::row_left;
use crate::rows::row_score;
use crate::rows::slide_row;

verus! {

/// Cell `4*k + j` of a board is cell `j` of its row `k`.
proof fn lemma_board_row_cells(b: u64)
    ensures
        forall|k: int, j: int|
            0 <= k < 4 && 0 <= j < 4 ==> #[trigger] row_cells(row_of(b, k))[j] == nyb(
                b,
                4 * k + j,
            ),
{
    assert forall|k: int, j: int|
        0 <= k < 4 && 0 <= j < 4 implies #[trigger] row_cells(row_of(b, k))[j] == nyb(
        b,
        4 * k + j,
    ) by {
        let ku = k as u64;
        let ju = j as u64;
        lemma_row_cell(b, ku, ju);
        lemma_shift_zero(row_of(b, k));
        assert((4 * (4 * k + j)) as u64 == 16 * ku + 4 * ju);
        assert((16 * k) as u64 == 16 * ku);
    }
}

/// Transposing moves the cell in row `r`, column `c` to row `c`, column
/// `r`: cell `i` of the transpose is cell `4*(i%4) + i/4` of the board.
proof fn lemma_transpose_nybbles(b: u64)
    ensures
        forall|i: int|
            0 <= i < 16 ==> #[trigger] nyb(transpose_spec(b), i) == nyb(b, 4 * (i % 4) + i / 4),
{
    assert forall|i: int|
        0 <= i < 16 implies #[trigger] nyb(transpose_spec(b), i) == nyb(b, 4 * (i % 4) + i / 4) by {
        let r = i / 4;
        let c = i % 4;
        lemma_transpose_cell(b, r as u64, c as u64);
        assert((4 * i) as u64 == 16 * (r as u64) + 4 * (c as u64));
        assert((4 * (4 * c + r)) as u64 == 16 * (c as u64) + 4 * (r as u64));
    }
}

/// A board's score is the summed score of its sixteen cells.
proof fn lemma_score_by_cells(b: u64)
    ensures
        score_spec(b) == cell_score(nyb(b, 0)) + cell_score(nyb(b, 1)) + cell_score(nyb(b, 2))
            + cell_score(nyb(b, 3)) + cell_score(nyb(b, 4)) + cell_score(nyb(b, 5)) + cell_score(
            nyb(b, 6),
        ) + cell_score(nyb(b, 7)) + cell_score(nyb(b, 8)) + cell_score(nyb(b, 9)) + cell_score(
            nyb(b, 10),
        ) + cell_score(nyb(b, 11)) + cell_score(nyb(b, 12)) + cell_score(nyb(b, 13)) + cell_score(
            nyb(b, 14),
        ) + cell_score(nyb(b, 15)),
{
    lemma_board_row_cells(b);
    assert(row_score(row_of(b, 0)) == cell_score(nyb(b, 0)) + cell_score(nyb(b, 1)) + cell_score(
        nyb(b, 2),
    ) + cell_score(nyb(b, 3)));
    assert(row_score(row_of(b, 1)) == cell_score(nyb(b, 4)) + cell_score(nyb(b, 5)) + cell_score(
        nyb(b, 6),
    ) + cell_score(nyb(b, 7)));
    assert(row_score(row_of(b, 2)) == cell_score(nyb(b, 8)) + cell_score(nyb(b, 9)) + cell_score(
        nyb(b, 10),
    ) + cell_score(nyb(b, 11)));
    assert(row_score(row_of(b, 3)) == cell_score(nyb(b, 12)) + cell_score(nyb(b, 13)) + cell_score(
        nyb(b, 14),
    ) + cell_score(nyb(b, 15)));
}

/// Transposing permutes the cells, so it leaves the score unchanged.
proof fn lemma_transpose_score(b: u64)
    ensures
        score_spec(transpose_spec(b)) == score_spec(b),
{
    lemma_transpose_nybbles(b);
    lemma_score_by_cells(b);
    lemma_score_by_cells(transpose_spec(b));
}

/// On a board with no saturated cell, no row has a saturated cell either.
proof fn lemma_board_cells_small(b: u64)
    requires
        forall|i: int| 0 <= i < 16 ==> nyb(b, i) < 15,
    ensures
        forall|k: int| 0 <= k < 4 ==> cells_small(#[trigger] row_cells(row_of(b, k))),
{
    lemma_board_row_cells(b);
    assert forall|k: int| 0 <= k < 4 implies cells_small(#[trigger] row_cells(row_of(b, k))) by {
        assert(row_cells(row_of(b, k))[0] == nyb(b, 4 * k + 0));
        assert(row_cells(row_of(b, k))[1] == nyb(b, 4 * k + 1));
        assert(row_cells(row_of(b, k))[2] == nyb(b, 4 * k + 2));
        assert(row_cells(row_of(b, k))[3] == nyb(b, 4 * k + 3));
    }
}

/// Sliding every row toward the low nybble never lowers the board's score,
/// while no cell is saturated.
proof fn lemma_rows_right_score(b: u64)
    requires
        forall|i: int| 0 <= i < 16 ==> nyb(b, i) < 15,
    ensures
        score_spec(move_right_spec(b)) >= score_spec(b),
{
    crate::masks::lemma_board_is_its_rows(b);
    lemma_slide_row_bound(row_of(b, 0));
    lemma_slide_row_bound(row_of(b, 1));
    lemma_slide_row_bound(row_of(b, 2));
    lemma_slide_row_bound(row_of(b, 3));
    crate::masks::lemma_rows_pack_rows(
        slide_row(row_of(b, 0)),
        slide_row(row_of(b, 1)),
        slide_row(row_of(b, 2)),
        slide_row(row_of(b, 3)),
    );
    lemma_board_cells_small(b);
    lemma_slide_score_mono(row_of(b, 0));
    lemma_slide_score_mono(row_of(b, 1));
    lemma_slide_score_mono(row_of(b, 2));
    lemma_slide_score_mono(row_of(b, 3));
}

/// The same for sliding toward the high nybble.
proof fn lemma_rows_left_score(b: u64)
    requires
        forall|i: int| 0 <= i < 16 ==> nyb(b, i) < 15,
    ensures
        score_spec(crate::game::move_left_spec(b)) >= score_spec(b),
{
    crate::masks::lemma_board_is_its_rows(b);
    lemma_slide_row_bound(row_of(b, 0));
    lemma_slide_row_bound(row_of(b, 1));
    lemma_slide_row_bound(row_of(b, 2));
    lemma_slide_row_bound(row_of(b, 3));
    crate::masks::lemma_rows_pack_rows(
        row_left(row_of(b, 0)),
        row_left(row_of(b, 1)),
        row_left(row_of(b, 2)),
        row_left(row_of(b, 3)),
    );
    lemma_board_cells_small(b);
    lemma_row_left_score_mono(row_of(b, 0));
    lemma_row_left_score_mono(row_of(b, 1));
    lemma_row_left_score_mono(row_of(b, 2));
    lemma_row_left_score_mono(row_of(b, 3));
}

/// Merges only add score, never subtract: a move in any direction cannot
/// lower a board's score, as long as no cell has reached the saturation
/// value 15. (Two saturated tiles merge into one with no value increase, so
/// a saturated board can lose score; such cells stand for the tile 65536
/// and are unreachable in ordinary play.)
pub proof fn lemma_score_monotone(b: u64, d: Direction)
    requires
        forall|i: int| 0 <= i < 16 ==> nyb(b, i) < 15,
    ensures
        score_spec(execute_spec(b, d)) >= score_spec(b),
{
    match d {
        Direction::Right => lemma_rows_right_score(b),
        Direction::Left => lemma_rows_left_score(b),
        Direction::Down => {
            let t = transpose_spec(b);
            lemma_transpose_nybbles(b);
            assert(forall|i: int| 0 <= i < 16 ==> #[trigger] nyb(t, i) < 15);
            lemma_rows_right_score(t);
            lemma_transpose_score(move_right_spec(t));
            lemma_transpose_score(b);
        },
        Direction::Up => {
            let t = transpose_spec(b);
            lemma_transpose_nybbles(b);
            assert(forall|i: int| 0 <= i < 16 ==> #[trigger] nyb(t, i) < 15);
            lemma_rows_left_score(t);
            lemma_transpose_score(crate::game::move_left_spec(t));
            lemma_transpose_score(b);
        },
        Direction::NoMove => (),
    }
}

/// A move is a pure function of the board: a direction that had no effect
/// has none the second time either.
pub proof fn lemma_execute_idempotent_when_stuck(b: u64, d: Direction)
    requires
        execute_spec(b, d) == b,
    ensures
        execute_spec(execute_spec(b, d), d) == b,
{
}

/// Every cell is either empty or holds a tile: the two counts always sum to
/// the sixteen cells of the board.
pub proof fn lemma_tile_count(b: u64)
    ensures
        count_empty_spec(b) + count_tiles_spec(b) == 16,
{
    lemma_counts_sum(b, 16);
}

/// The two counters partition the first `n` cells.
proof fn lemma_counts_sum(b: u64, n: int)
    requires
        0 <= n <= 16,
    ensures
        count_empty_upto(b, n) + count_tiles_upto(b, n) == n,
    decreases n,
{
    if n > 0 {
        lemma_counts_sum(b, n - 1);
    }
}

/// A board holding one 16-bit row pattern in its low row and nothing else:
/// the "right" move on it is exactly the XOR of the table's stored right
/// delta for that pattern.
pub proof fn lemma_right_delta_matches(m: &Moves, r: u64)
    requires
        m.wf(),
        r <= 0xFFFF,
    ensures
        move_right_spec(r) == r ^ m.right@[r as int],
{
    lemma_single_row_board(r);
    lemma_slide_row_zero();
    lemma_slide_row_bound(r);
    let s = slide_row(r);
    assert(rows_pack(s, 0, 0, 0) == s) by {
        lemma_single_row_board(s);
    }
    assert(r ^ (r ^ s) == s) by (bit_vector);
}

/// A 16-bit value as a board has that value as row 0 and empty rows above.
proof fn lemma_single_row_board(r: u64)
    by (bit_vector)
    requires
        r <= 0xFFFF,
    ensures
        row_of(r, 0) == r,
        row_of(r, 1) == 0,
        row_of(r, 2) == 0,
        row_of(r, 3) == 0,
        rows_pack(r, 0, 0, 0) == r,
{
}

/// The empty row slides to the empty row.
proof fn lemma_slide_row_zero()
    ensures
        slide_row(0) == 0,
{
    let cells = row_cells(0);
    assert(0u64 & 0xF == 0 && (0u64 >> 4) & 0xF == 0 && (0u64 >> 8) & 0xF == 0 && (0u64 >> 12)
        & 0xF == 0 && (0u64 | (0u64 << 4) | (0u64 << 8) | (0u64 << 12)) == 0) by (bit_vector);
    assert(cells =~= seq![0u64, 0u64, 0u64, 0u64]);
    reveal_with_fuel(crate::rows::drop_zeros, 6);
    assert(cells.skip(1) =~= seq![0u64, 0u64, 0u64]);
    assert(cells.skip(1).skip(1) =~= seq![0u64, 0u64]);
    assert(cells.skip(1).skip(1).skip(1) =~= seq![0u64]);
    assert(cells.skip(1).skip(1).skip(1).skip(1) =~= Seq::<u64>::empty());
    assert(crate::rows::drop_zeros(cells) =~= Seq::<u64>::empty());
    assert(crate::rows::merge_pairs(Seq::<u64>::empty()) =~= Seq::<u64>::empty());
    assert(crate::rows::pad4(Seq::<u64>::empty()) =~= seq![0u64, 0u64, 0u64, 0u64]);
}

} // verus!