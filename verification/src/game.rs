//! A single game: a live board, moves by table lookup, random tile spawns,
//! and the play loop that drives a game to completion under an injected
//! move policy.

use vstd::prelude::*;

use crate::direction::Direction;
use crate::direction::contains_dir;
use crate::masks::ROW_MASK;
use crate::masks::column_spec;
use crate::masks::lemma_board_is_its_rows;
use crate::masks::lemma_field_bounds;
use crate::masks::lemma_rows_pack_rows;
use crate::masks::lemma_shift_zero;
use crate::masks::lemma_transpose_involution;
use crate::masks::nyb;
use crate::masks::row_of;
use crate::masks::rows_pack;
use crate::masks::transpose_spec;
use crate::masks::lemma_row_cell;
use crate::masks::lemma_transpose_cell;
use crate::moves::Moves;
use crate::rng::random_below;
use crate::rows::lemma_row_left_full;
use crate::rows::lemma_slide_full;
use crate::rows::lemma_slide_row_bound;
use crate::rows::row_cells;
use crate::rows::row_left;
use crate::rows::row_score;
use crate::rows::slide_row;

verus! {

/// The board after a "right" move: every row collapsed toward its low
/// nybble.
pub open spec fn move_right_spec(b: u64) -> u64 {
    rows_pack(
        slide_row(row_of(b, 0)),
        slide_row(row_of(b, 1)),
        slide_row(row_of(b, 2)),
        slide_row(row_of(b, 3)),
    )
}

/// The board after a "left" move: every row collapsed toward its high
/// nybble.
pub open spec fn move_left_spec(b: u64) -> u64 {
    rows_pack(
        row_left(row_of(b, 0)),
        row_left(row_of(b, 1)),
        row_left(row_of(b, 2)),
        row_left(row_of(b, 3)),
    )
}

/// The board after an "up" move: the columns, read as rows of the
/// transposed board, collapse away from the low row.
pub open spec fn move_up_spec(b: u64) -> u64 {
    transpose_spec(move_left_spec(transpose_spec(b)))
}

/// The board after a "down" move: the columns collapse toward the low row.
pub open spec fn move_down_spec(b: u64) -> u64 {
    transpose_spec(move_right_spec(transpose_spec(b)))
}

/// What `execute` returns for each direction; the sentinel changes nothing.
pub open spec fn execute_spec(b: u64, d: Direction) -> u64 {
    match d {
        Direction::Left => move_left_spec(b),
        Direction::Right => move_right_spec(b),
        Direction::Up => move_up_spec(b),
        Direction::Down => move_down_spec(b),
        Direction::NoMove => b,
    }
}

/// The score of a board: the summed scores of its four rows.
pub open spec fn score_spec(b: u64) -> int {
    row_score(row_of(b, 0)) + row_score(row_of(b, 1)) + row_score(row_of(b, 2)) + row_score(
        row_of(b, 3),
    )
}

/// How many of the first `n` cells are empty.
pub open spec fn count_empty_upto(b: u64, n: int) -> int
    decreases n,
{
    if n <= 0 {
        0
    } else {
        count_empty_upto(b, n - 1) + if nyb(b, n - 1) == 0 {
            1int
        } else {
            0int
        }
    }
}

/// How many of a board's sixteen cells are empty.
pub open spec fn count_empty_spec(b: u64) -> int {
    count_empty_upto(b, 16)
}

/// How many of the first `n` cells hold a tile.
pub open spec fn count_tiles_upto(b: u64, n: int) -> int
    decreases n,
{
    if n <= 0 {
        0
    } else {
        count_tiles_upto(b, n - 1) + if nyb(b, n - 1) == 0 {
            0int
        } else {
            1int
        }
    }
}

/// How many of a board's sixteen cells hold a tile.
pub open spec fn count_tiles_spec(b: u64) -> int {
    count_tiles_upto(b, 16)
}

/// A freshly spawned tile value: a 1 or a 2 in a single cell that is empty
/// in `b`, zero everywhere else.
pub open spec fn spawns_into(b: u64, t: u64) -> bool {
    exists|i: int|
        0 <= i < 16 && #[trigger] nyb(b, i) == 0 && (t == (1u64 << ((4 * i) as u64)) || t == (2u64
            << ((4 * i) as u64)))
}

/// One turn of the game, seen on boards: a direction with an effect is
/// applied and a fresh tile lands on the moved board.
pub open spec fn legal_step(b1: u64, b2: u64) -> bool {
    exists|d: Direction, t: u64|
        execute_spec(b1, d) != b1 && #[trigger] spawns_into(execute_spec(b1, d), t) && b2
            == execute_spec(b1, d) | t
}

/// `b2` arises from `b1` by exactly `n` turns.
pub open spec fn reached(b1: u64, b2: u64, n: nat) -> bool
    decreases n,
{
    if n == 0 {
        b1 == b2
    } else {
        exists|m: u64| #[trigger] legal_step(b1, m) && reached(m, b2, (n - 1) as nat)
    }
}

/// A freshly set up board: the empty board with two tiles spawned into it,
/// one after the other.
pub open spec fn initial_board(b: u64) -> bool {
    exists|t1: u64, t2: u64|
        spawns_into(0, t1) && #[trigger] spawns_into(t1, t2) && b == t1 | t2
}

/// The protocol of the failed-direction list the play loop hands to its
/// policy: at most the four real directions, no duplicates, and every entry
/// had no effect on the very board it is handed out with.
pub open spec fn failed_list_ok(b: u64, v: Seq<Direction>) -> bool {
    &&& v.len() <= 4
    &&& forall|k: int, l: int| 0 <= k < l < v.len() ==> v[k] != v[l]
    &&& forall|k: int| 0 <= k < v.len() ==> #[trigger] execute_spec(b, v[k]) == b
    &&& forall|k: int| 0 <= k < v.len() ==> v[k] != Direction::NoMove
}

/// A failed list that reaches four entries exhausts the compass: its
/// entries are distinct real directions that all failed, so no direction at
/// all changes the board — the state the play loop stops in is terminal.
pub proof fn lemma_four_failures_terminal(b: u64, v: Seq<Direction>)
    requires
        failed_list_ok(b, v),
        v.len() == 4,
    ensures
        forall|d: Direction| #[trigger] execute_spec(b, d) == b,
{
    assert forall|d: Direction| #[trigger] execute_spec(b, d) == b by {
        if d != Direction::NoMove {
            assert(execute_spec(b, v[0]) == b);
            assert(execute_spec(b, v[1]) == b);
            assert(execute_spec(b, v[2]) == b);
            assert(execute_spec(b, v[3]) == b);
            assert(d == v[0] || d == v[1] || d == v[2] || d == v[3]);
        }
    }
}

/// The four ways a finished run can have ended. Either the final board is
/// terminal — four distinct directions failed on it, and nothing moves it —
/// or the policy can answer the sentinel for it, or the policy can answer a
/// direction already on the failed list for it, or the run of effective
/// moves itself outlasted the loop's step budget.
pub open spec fn play_exit<F: Fn(u64, &Vec<Direction>) -> Direction>(
    mv: F,
    start: u64,
    end: u64,
) -> bool {
    ||| forall|d: Direction| #[trigger] execute_spec(end, d) == end
    ||| exists|v: Vec<Direction>|
        failed_list_ok(end, v@) && #[trigger] call_ensures(mv, (end, &v), Direction::NoMove)
    ||| exists|v: Vec<Direction>, d: Direction|
        failed_list_ok(end, v@) && #[trigger] call_ensures(mv, (end, &v), d) && v@.contains(d)
    ||| exists|n: nat| #[trigger] reached(start, end, n) && 5 * n + 4 >= 0xFFFF_FFFF_FFFF_FFFF
}

/// Under a policy that never answers the sentinel, a finished run can only
/// stand on a terminal board, or on a board the policy stalls on with an
/// already-failed direction, or at the end of a game that outlasted the
/// step budget. (The unconditional form, with the sentinel arm, is
/// `play_exit`; a termination claim with no budget arm at all is out of
/// reach, since the loop must carry a decreasing measure while a game with
/// saturating merges can go on without bound.)
pub proof fn lemma_no_sentinel_exit<F: Fn(u64, &Vec<Direction>) -> Direction>(
    mv: F,
    start: u64,
    end: u64,
)
    requires
        play_exit(mv, start, end),
        forall|b: u64, v: Vec<Direction>, d: Direction|
            call_ensures(mv, (b, &v), d) ==> d != Direction::NoMove,
    ensures
        (forall|d: Direction| #[trigger] execute_spec(end, d) == end) || (exists|
            v: Vec<Direction>,
            d: Direction,
        |
            failed_list_ok(end, v@) && #[trigger] call_ensures(mv, (end, &v), d) && v@.contains(d))
            || (exists|n: nat|
            #[trigger] reached(start, end, n) && 5 * n + 4 >= 0xFFFF_FFFF_FFFF_FFFF),
{
    if exists|v: Vec<Direction>|
        failed_list_ok(end, v@) && #[trigger] call_ensures(mv, (end, &v), Direction::NoMove) {
        let v = choose|v: Vec<Direction>|
            failed_list_ok(end, v@) && #[trigger] call_ensures(mv, (end, &v), Direction::NoMove);
        assert(false);
    }
}

/// A turn taken at the end of a run of turns lengthens the run by one.
proof fn lemma_reached_extend(b1: u64, b2: u64, b3: u64, n: nat)
    requires
        reached(b1, b2, n),
        legal_step(b2, b3),
    ensures
        reached(b1, b3, n + 1),
    decreases n,
{
    if n == 0 {
        assert(legal_step(b1, b3));
        assert(reached(b3, b3, 0));
    } else {
        let m = choose|m: u64| #[trigger] legal_step(b1, m) && reached(m, b2, (n - 1) as nat);
        lemma_reached_extend(m, b2, b3, (n - 1) as nat);
        assert(legal_step(b1, m) && reached(m, b3, n));
    }
}

/// Every cell of the all-zero board is empty.
proof fn lemma_zero_board()
    ensures
        forall|j: int| 0 <= j < 16 ==> #[trigger] nyb(0, j) == 0,
{
    assert forall|j: int| 0 <= j < 16 implies #[trigger] nyb(0, j) == 0 by {
        let s = (4 * j) as u64;
        assert((0u64 >> s) & 0xF == 0) by (bit_vector);
    }
}

/// XOR-ing each row's delta into its own 16-bit slot rewrites the four rows
/// and touches nothing else.
proof fn lemma_xor_rows(b: u64, s0: u64, s1: u64, s2: u64, s3: u64)
    by (bit_vector)
    requires
        s0 <= 0xFFFF,
        s1 <= 0xFFFF,
        s2 <= 0xFFFF,
        s3 <= 0xFFFF,
    ensures
        b ^ (row_of(b, 0) ^ s0) ^ ((row_of(b, 1) ^ s1) << 16) ^ ((row_of(b, 2) ^ s2) << 32) ^ ((
        row_of(b, 3) ^ s3) << 48) == rows_pack(s0, s1, s2, s3),
{
}

/// XOR-ing each column's delta into its own column slot rewrites the four
/// columns: the result is the transpose of the rewritten transposed board.
proof fn lemma_xor_cols(b: u64, u0: u64, u1: u64, u2: u64, u3: u64)
    by (bit_vector)
    requires
        u0 <= 0xFFFF,
        u1 <= 0xFFFF,
        u2 <= 0xFFFF,
        u3 <= 0xFFFF,
    ensures
        b ^ (column_spec(row_of(transpose_spec(b), 0)) ^ column_spec(u0)) ^ ((column_spec(
            row_of(transpose_spec(b), 1),
        ) ^ column_spec(u1)) << 4) ^ ((column_spec(row_of(transpose_spec(b), 2)) ^ column_spec(u2))
            << 8) ^ ((column_spec(row_of(transpose_spec(b), 3)) ^ column_spec(u3)) << 12)
            == transpose_spec(rows_pack(u0, u1, u2, u3)),
{
}

/// Every cell of the all-zero board is empty.
proof fn lemma_count_empty_zero_upto(n: int)
    requires
        0 <= n <= 16,
    ensures
        count_empty_upto(0, n) == n,
    decreases n,
{
    if n > 0 {
        lemma_count_empty_zero_upto(n - 1);
        let s = (4 * (n - 1)) as u64;
        assert((0u64 >> s) & 0xF == 0) by (bit_vector);
    }
}

/// OR-ing a tile into an empty cell changes that cell alone.
proof fn lemma_or_tile_cells(b: u64, v: u64, i: u64, j: u64)
    by (bit_vector)
    requires
        i < 16,
        j < 16,
        1 <= v <= 2,
        (b >> (4 * i)) & 0xF == 0,
    ensures
        j != i ==> ((b | (v << (4 * i))) >> (4 * j)) & 0xF == (b >> (4 * j)) & 0xF,
        ((b | (v << (4 * i))) >> (4 * i)) & 0xF == v,
{
}

/// If two boards agree on every cell below `n` except one, which went from
/// empty to occupied, the empty count among those cells drops by one.
proof fn lemma_count_changed_cell(b1: u64, b2: u64, i: int, n: int)
    requires
        0 <= i < n <= 16,
        nyb(b1, i) == 0,
        nyb(b2, i) != 0,
        forall|j: int| 0 <= j < 16 && j != i ==> nyb(b1, j) == nyb(b2, j),
    ensures
        count_empty_upto(b2, n) == count_empty_upto(b1, n) - 1,
    decreases n,
{
    if n - 1 > i {
        lemma_count_changed_cell(b1, b2, i, n - 1);
    } else {
        lemma_count_same_cells(b1, b2, i, n - 1);
    }
}

/// Boards that agree on every cell below `n` except cell `i`, with `i` not
/// among them, have the same empty count there.
proof fn lemma_count_same_cells(b1: u64, b2: u64, i: int, n: int)
    requires
        0 <= n <= 16,
        n <= i,
        forall|j: int| 0 <= j < 16 && j != i ==> nyb(b1, j) == nyb(b2, j),
    ensures
        count_empty_upto(b2, n) == count_empty_upto(b1, n),
    decreases n,
{
    if n > 0 {
        lemma_count_same_cells(b1, b2, i, n - 1);
    }
}

/// Spawning a tile onto an empty cell fills exactly that cell: the board's
/// empty count drops by one.
pub proof fn lemma_spawn_fills_one(b: u64, t: u64)
    requires
        spawns_into(b, t),
    ensures
        count_empty_spec(b | t) == count_empty_spec(b) - 1,
{
    let i = choose|i: int|
        0 <= i < 16 && #[trigger] nyb(b, i) == 0 && (t == (1u64 << ((4 * i) as u64)) || t == (2u64
            << ((4 * i) as u64)));
    let v: u64 = if t == (1u64 << ((4 * i) as u64)) {
        1
    } else {
        2
    };
    let iu = i as u64;
    assert((4 * i) as u64 == 4 * iu);
    assert(forall|j: int| 0 <= j < 16 && j != i ==> nyb(b, j) == nyb(b | t, j)) by {
        assert forall|j: int| 0 <= j < 16 && j != i implies nyb(b, j) == nyb(b | t, j) by {
            let ju = j as u64;
            assert((4 * j) as u64 == 4 * ju);
            lemma_or_tile_cells(b, v, iu, ju);
        }
    }
    lemma_or_tile_cells(b, v, iu, iu);
    assert(nyb(b | t, i) == v);
    lemma_count_changed_cell(b, b | t, i, 16);
}

/// Spawning touches one cell only: every cell either keeps its value or
/// was empty and now holds a 1 or a 2.
pub proof fn lemma_spawn_cells(b: u64, t: u64)
    requires
        spawns_into(b, t),
    ensures
        forall|j: int|
            0 <= j < 16 ==> #[trigger] nyb(b | t, j) == nyb(b, j) || (nyb(b, j) == 0 && 1 <= nyb(
                b | t,
                j,
            ) <= 2),
{
    let i = choose|i: int|
        0 <= i < 16 && #[trigger] nyb(b, i) == 0 && (t == (1u64 << ((4 * i) as u64)) || t == (2u64
            << ((4 * i) as u64)));
    let v: u64 = if t == (1u64 << ((4 * i) as u64)) {
        1
    } else {
        2
    };
    let iu = i as u64;
    assert((4 * i) as u64 == 4 * iu);
    assert forall|j: int|
        0 <= j < 16 implies #[trigger] nyb(b | t, j) == nyb(b, j) || (nyb(b, j) == 0 && 1 <= nyb(
        b | t,
        j,
    ) <= 2) by {
        let ju = j as u64;
        assert((4 * j) as u64 == 4 * ju);
        lemma_or_tile_cells(b, v, iu, ju);
    }
}

/// The largest cell value among the first `n` cells.
pub open spec fn max_cell_upto(b: u64, n: int) -> u64
    decreases n,
{
    if n <= 0 {
        0
    } else if nyb(b, n - 1) > max_cell_upto(b, n - 1) {
        nyb(b, n - 1)
    } else {
        max_cell_upto(b, n - 1)
    }
}

/// The largest tile on the board, as its displayed value `2^(k+1)`; `2` for
/// the empty board.
pub fn highest_tile(board: u64) -> (r: u64)
    ensures
        r == (2u64 << max_cell_upto(board, 16)),
{
    let mut highest: u64 = 0;
    let mut i: u64 = 0;
    while i < 16
        invariant
            i <= 16,
            highest == max_cell_upto(board, i as int),
            highest < 16,
        decreases 16 - i,
    {
        proof {
            assert((4 * (i as int)) as u64 == 4 * i);
        }
        let current = (board >> (i * 4)) & 0xF;
        proof {
            lemma_field_bounds(board, (4 * i) as u64);
        }
        if current > highest {
            highest = current;
        }
        i = i + 1;
    }
    2u64 << highest
}

/// The empty count never goes negative.
proof fn lemma_count_empty_nonneg(b: u64, n: int)
    requires
        0 <= n,
    ensures
        count_empty_upto(b, n) >= 0,
    decreases n,
{
    if n > 0 {
        lemma_count_empty_nonneg(b, n - 1);
    }
}

/// A zero empty count means every cell holds a tile.
proof fn lemma_count_empty_none(b: u64, n: int)
    requires
        0 <= n <= 16,
        count_empty_upto(b, n) == 0,
    ensures
        forall|i: int| 0 <= i < n ==> nyb(b, i) != 0,
    decreases n,
{
    if n > 0 {
        lemma_count_empty_nonneg(b, n - 1);
        lemma_count_empty_none(b, n - 1);
    }
}

/// Conversely, a board with a tile in every cell has empty count zero.
proof fn lemma_count_empty_all_full(b: u64, n: int)
    requires
        0 <= n <= 16,
        forall|i: int| 0 <= i < n ==> nyb(b, i) != 0,
    ensures
        count_empty_upto(b, n) == 0,
    decreases n,
{
    if n > 0 {
        lemma_count_empty_all_full(b, n - 1);
    }
}

/// On a fully occupied board, every cell of every row pattern is nonzero.
proof fn lemma_full_board_rows(b: u64)
    requires
        forall|i: int| 0 <= i < 16 ==> nyb(b, i) != 0,
    ensures
        forall|k: int, j: int|
            0 <= k < 4 && 0 <= j < 4 ==> #[trigger] row_cells(row_of(b, k))[j] != 0,
{
    assert forall|k: int, j: int|
        0 <= k < 4 && 0 <= j < 4 implies #[trigger] row_cells(row_of(b, k))[j] != 0 by {
        let ku = k as u64;
        let ju = j as u64;
        lemma_row_cell(b, ku, ju);
        lemma_shift_zero(row_of(b, k));
        assert((4 * (4 * k + j)) as u64 == 16 * ku + 4 * ju);
        assert(nyb(b, 4 * k + j) != 0);
        assert((16 * k) as u64 == 16 * ku);
    }
}

/// A "right" move that leaves no cell empty changed nothing.
proof fn lemma_full_move_right(b: u64)
    requires
        count_empty_spec(move_right_spec(b)) == 0,
    ensures
        move_right_spec(b) == b,
{
    let b2 = move_right_spec(b);
    lemma_count_empty_none(b2, 16);
    lemma_full_board_rows(b2);
    lemma_board_is_its_rows(b);
    lemma_slide_row_bound(row_of(b, 0));
    lemma_slide_row_bound(row_of(b, 1));
    lemma_slide_row_bound(row_of(b, 2));
    lemma_slide_row_bound(row_of(b, 3));
    lemma_rows_pack_rows(
        slide_row(row_of(b, 0)),
        slide_row(row_of(b, 1)),
        slide_row(row_of(b, 2)),
        slide_row(row_of(b, 3)),
    );
    lemma_slide_full(row_of(b, 0));
    lemma_slide_full(row_of(b, 1));
    lemma_slide_full(row_of(b, 2));
    lemma_slide_full(row_of(b, 3));
}

/// A "left" move that leaves no cell empty changed nothing.
proof fn lemma_full_move_left(b: u64)
    requires
        count_empty_spec(move_left_spec(b)) == 0,
    ensures
        move_left_spec(b) == b,
{
    let b2 = move_left_spec(b);
    lemma_count_empty_none(b2, 16);
    lemma_full_board_rows(b2);
    lemma_board_is_its_rows(b);
    lemma_slide_row_bound(row_of(b, 0));
    lemma_slide_row_bound(row_of(b, 1));
    lemma_slide_row_bound(row_of(b, 2));
    lemma_slide_row_bound(row_of(b, 3));
    lemma_rows_pack_rows(
        row_left(row_of(b, 0)),
        row_left(row_of(b, 1)),
        row_left(row_of(b, 2)),
        row_left(row_of(b, 3)),
    );
    lemma_row_left_full(row_of(b, 0));
    lemma_row_left_full(row_of(b, 1));
    lemma_row_left_full(row_of(b, 2));
    lemma_row_left_full(row_of(b, 3));
}

/// Transposing permutes the cells, so it fills no cell and empties none.
proof fn lemma_transpose_full(x: u64)
    requires
        forall|i: int| 0 <= i < 16 ==> nyb(x, i) != 0,
    ensures
        forall|i: int| 0 <= i < 16 ==> nyb(transpose_spec(x), i) != 0,
{
    assert forall|i: int| 0 <= i < 16 implies nyb(transpose_spec(x), i) != 0 by {
        let r = i / 4;
        let c = i % 4;
        lemma_transpose_cell(x, r as u64, c as u64);
        assert((4 * i) as u64 == 16 * (r as u64) + 4 * (c as u64));
        assert((4 * (4 * c + r)) as u64 == 16 * (c as u64) + 4 * (r as u64));
        assert(nyb(x, 4 * c + r) != 0);
    }
}

/// A "down" move that leaves no cell empty changed nothing.
proof fn lemma_full_move_down(b: u64)
    requires
        count_empty_spec(move_down_spec(b)) == 0,
    ensures
        move_down_spec(b) == b,
{
    let t = transpose_spec(b);
    let t2 = move_right_spec(t);
    let b2 = move_down_spec(b);
    lemma_transpose_involution(t2);
    lemma_count_empty_none(b2, 16);
    lemma_transpose_full(b2);
    lemma_count_empty_all_full(t2, 16);
    lemma_full_move_right(t);
    lemma_transpose_involution(b);
}

/// An "up" move that leaves no cell empty changed nothing.
proof fn lemma_full_move_up(b: u64)
    requires
        count_empty_spec(move_up_spec(b)) == 0,
    ensures
        move_up_spec(b) == b,
{
    let t = transpose_spec(b);
    let t2 = move_left_spec(t);
    let b2 = move_up_spec(b);
    lemma_transpose_involution(t2);
    lemma_count_empty_none(b2, 16);
    lemma_transpose_full(b2);
    lemma_count_empty_all_full(t2, 16);
    lemma_full_move_left(t);
    lemma_transpose_involution(b);
}

/// A move that changed the board always leaves at least one empty cell, so
/// a tile can be spawned after every successful move.
pub proof fn lemma_execute_makes_room(b: u64, d: Direction)
    requires
        execute_spec(b, d) != b,
    ensures
        count_empty_spec(execute_spec(b, d)) >= 1,
{
    let b2 = execute_spec(b, d);
    lemma_count_empty_nonneg(b2, 16);
    if count_empty_spec(b2) == 0 {
        match d {
            Direction::Left => lemma_full_move_left(b),
            Direction::Right => lemma_full_move_right(b),
            Direction::Up => lemma_full_move_up(b),
            Direction::Down => lemma_full_move_down(b),
            Direction::NoMove => (),
        }
    }
}

/// A single game of the sliding-tile merging puzzle, holding its packed
/// board.
pub struct Game {
    pub board: u64,
}

impl Game {
    /// Returns a transposed board where rows become columns and vice versa.
    pub fn transpose(board: u64) -> (r: u64)
        ensures
            r == transpose_spec(board),
    {
        let a1 = board & 0xF0F0_0F0F_F0F0_0F0F;
        let a2 = board & 0x0000_F0F0_0000_F0F0;
        let a3 = board & 0x0F0F_0000_0F0F_0000;
        let a = a1 | (a2 << 12) | (a3 >> 12);
        let b1 = a & 0xFF00_FF00_00FF_00FF;
        let b2 = a & 0x00FF_00FF_0000_0000;
        let b3 = a & 0x0000_0000_FF00_FF00;
        b1 | (b2 >> 24) | (b3 << 24)
    }

    /// Returns the board moved right: each row slid toward its low nybble.
    pub fn move_right(board: u64, moves: &Moves) -> (r: u64)
        requires
            moves.wf(),
        ensures
            r == move_right_spec(board),
    {
        proof {
            lemma_shift_zero(board);
            lemma_board_is_its_rows(board);
            lemma_slide_row_bound(row_of(board, 0));
            lemma_slide_row_bound(row_of(board, 1));
            lemma_slide_row_bound(row_of(board, 2));
            lemma_slide_row_bound(row_of(board, 3));
        }
        let mut result = board;
        result = result ^ moves.right[(board & ROW_MASK) as usize];
        result = result ^ (moves.right[((board >> 16) & ROW_MASK) as usize] << 16);
        result = result ^ (moves.right[((board >> 32) & ROW_MASK) as usize] << 32);
        result = result ^ (moves.right[((board >> 48) & ROW_MASK) as usize] << 48);
        proof {
            lemma_xor_rows(
                board,
                slide_row(row_of(board, 0)),
                slide_row(row_of(board, 1)),
                slide_row(row_of(board, 2)),
                slide_row(row_of(board, 3)),
            );
        }
        result
    }

    /// Returns the board moved left: each row slid toward its high nybble.
    pub fn move_left(board: u64, moves: &Moves) -> (r: u64)
        requires
            moves.wf(),
        ensures
            r == move_left_spec(board),
    {
        proof {
            lemma_shift_zero(board);
            lemma_board_is_its_rows(board);
            lemma_slide_row_bound(row_of(board, 0));
            lemma_slide_row_bound(row_of(board, 1));
            lemma_slide_row_bound(row_of(board, 2));
            lemma_slide_row_bound(row_of(board, 3));
        }
        let mut result = board;
        result = result ^ moves.left[(board & ROW_MASK) as usize];
        result = result ^ (moves.left[((board >> 16) & ROW_MASK) as usize] << 16);
        result = result ^ (moves.left[((board >> 32) & ROW_MASK) as usize] << 32);
        result = result ^ (moves.left[((board >> 48) & ROW_MASK) as usize] << 48);
        proof {
            lemma_xor_rows(
                board,
                row_left(row_of(board, 0)),
                row_left(row_of(board, 1)),
                row_left(row_of(board, 2)),
                row_left(row_of(board, 3)),
            );
        }
        result
    }

    /// Returns the board moved down: each column slid toward the low row.
    pub fn move_down(board: u64, moves: &Moves) -> (r: u64)
        requires
            moves.wf(),
        ensures
            r == move_down_spec(board),
    {
        let transposed = Self::transpose(board);
        proof {
            lemma_shift_zero(transposed);
            lemma_board_is_its_rows(transposed);
            lemma_slide_row_bound(row_of(transposed, 0));
            lemma_slide_row_bound(row_of(transposed, 1));
            lemma_slide_row_bound(row_of(transposed, 2));
            lemma_slide_row_bound(row_of(transposed, 3));
        }
        let mut result = board;
        result = result ^ moves.down[(transposed & ROW_MASK) as usize];
        result = result ^ (moves.down[((transposed >> 16) & ROW_MASK) as usize] << 4);
        result = result ^ (moves.down[((transposed >> 32) & ROW_MASK) as usize] << 8);
        result = result ^ (moves.down[((transposed >> 48) & ROW_MASK) as usize] << 12);
        proof {
            lemma_xor_cols(
                board,
                slide_row(row_of(transposed, 0)),
                slide_row(row_of(transposed, 1)),
                slide_row(row_of(transposed, 2)),
                slide_row(row_of(transposed, 3)),
            );
        }
        result
    }

    /// Returns the board moved up: each column slid toward the high row.
    pub fn move_up(board: u64, moves: &Moves) -> (r: u64)
        requires
            moves.wf(),
        ensures
            r == move_up_spec(board),
    {
        let transposed = Self::transpose(board);
        proof {
            lemma_shift_zero(transposed);
            lemma_board_is_its_rows(transposed);
            lemma_slide_row_bound(row_of(transposed, 0));
            lemma_slide_row_bound(row_of(transposed, 1));
            lemma_slide_row_bound(row_of(transposed, 2));
            lemma_slide_row_bound(row_of(transposed, 3));
        }
        let mut result = board;
        result = result ^ moves.up[(transposed & ROW_MASK) as usize];
        result = result ^ (moves.up[((transposed >> 16) & ROW_MASK) as usize] << 4);
        result = result ^ (moves.up[((transposed >> 32) & ROW_MASK) as usize] << 8);
        result = result ^ (moves.up[((transposed >> 48) & ROW_MASK) as usize] << 12);
        proof {
            lemma_xor_cols(
                board,
                row_left(row_of(transposed, 0)),
                row_left(row_of(transposed, 1)),
                row_left(row_of(transposed, 2)),
                row_left(row_of(transposed, 3)),
            );
        }
        result
    }

    /// Returns `board` moved in the given direction; the sentinel direction
    /// returns the board unchanged.
    pub fn execute(board: u64, direction: &Direction, moves: &Moves) -> (r: u64)
        requires
            moves.wf(),
        ensures
            r == execute_spec(board, *direction),
    {
        match direction {
            Direction::Left => Self::move_left(board, moves),
            Direction::Right => Self::move_right(board, moves),
            Direction::Down => Self::move_down(board, moves),
            Direction::Up => Self::move_up(board, moves),
            Direction::NoMove => board,
        }
    }

    /// Returns the sum of the four lookups in `table` for the board's four
    /// rows.
    pub fn table_helper(board: u64, table: &Vec<u64>) -> (r: u64)
        requires
            table@.len() >= 65536,
            table@[row_of(board, 0) as int] + table@[row_of(board, 1) as int] + table@[row_of(
                board,
                2,
            ) as int] + table@[row_of(board, 3) as int] <= u64::MAX,
        ensures
            r as int == table@[row_of(board, 0) as int] + table@[row_of(board, 1) as int]
                + table@[row_of(board, 2) as int] + table@[row_of(board, 3) as int],
    {
        proof {
            lemma_shift_zero(board);
            lemma_board_is_its_rows(board);
        }
        table[(board & ROW_MASK) as usize] + table[((board >> 16) & ROW_MASK) as usize] + table[((
        board >> 32) & ROW_MASK) as usize] + table[((board >> 48) & ROW_MASK) as usize]
    }

    /// Returns the sum of the four lookups in `table` for the board's four
    /// rows; `table_helper` under its older name.
    pub fn board_info(board: u64, table: &Vec<u64>) -> (r: u64)
        requires
            table@.len() >= 65536,
            table@[row_of(board, 0) as int] + table@[row_of(board, 1) as int] + table@[row_of(
                board,
                2,
            ) as int] + table@[row_of(board, 3) as int] <= u64::MAX,
        ensures
            r as int == table@[row_of(board, 0) as int] + table@[row_of(board, 1) as int]
                + table@[row_of(board, 2) as int] + table@[row_of(board, 3) as int],
    {
        Self::table_helper(board, table)
    }

    /// The 4th bit from each row in the given board, OR'd into the low
    /// column slot of each row.
    pub fn column_from(row: u64) -> (r: u64)
        ensures
            r == column_spec(row),
    {
        Moves::column_from(row)
    }

    /// Returns the score of the board: the summed scores of its four rows.
    pub fn score(board: u64, moves: &Moves) -> (s: u64)
        requires
            moves.wf(),
        ensures
            s as int == score_spec(board),
    {
        proof {
            lemma_board_is_its_rows(board);
        }
        Self::table_helper(board, &moves.scores)
    }

    /// Returns the count of empty cells.
    pub fn count_empty(board: u64) -> (n: u32)
        ensures
            n as int == count_empty_spec(board),
            n <= 16,
    {
        let mut empty: u32 = 0;
        let mut i: u64 = 0;
        while i < 16
            invariant
                i <= 16,
                empty as int == count_empty_upto(board, i as int),
                empty <= i,
            decreases 16 - i,
        {
            proof {
                assert((4 * (i as int)) as u64 == 4 * i);
            }
            if ((board >> (i * 4)) & 0xF) == 0 {
                empty = empty + 1;
            }
            i = i + 1;
        }
        empty
    }

    /// Returns a `1` (a "2" tile) or, one time in ten, a `2` (a "4" tile).
    pub fn tile() -> (t: u64)
        ensures
            1 <= t <= 2,
    {
        if random_below(10) == 0 {
            2
        } else {
            1
        }
    }

    /// Returns a fresh tile value shifted to a uniformly chosen empty cell
    /// of `board`; OR it into the board to place it. Must not be called on a
    /// full board.
    pub fn spawn_tile(board: u64) -> (t: u64)
        requires
            count_empty_spec(board) >= 1,
        ensures
            spawns_into(board, t),
    {
        let empties = Self::count_empty(board);
        let idx = random_below(empties);
        let v = Self::tile();
        let mut i: u64 = 0;
        let mut seen: u32 = 0;
        while i < 16
            invariant
                i <= 16,
                seen as int == count_empty_upto(board, i as int),
                seen <= idx,
                idx < count_empty_spec(board),
                1 <= v <= 2,
            decreases 16 - i,
        {
            proof {
                assert((4 * (i as int)) as u64 == 4 * i);
            }
            if ((board >> (i * 4)) & 0xF) == 0 {
                if seen == idx {
                    let t = v << (i * 4);
                    proof {
                        assert(nyb(board, i as int) == 0);
                        assert(t == (1u64 << ((4 * (i as int)) as u64)) || t == (2u64 << ((4 * (
                        i as int)) as u64)));
                    }
                    return t;
                }
                seen = seen + 1;
            }
            i = i + 1;
        }
        proof {
            assert(false);
        }
        0
    }

    /// Constructs a new game: an empty board with two tiles spawned into it.
    pub fn new() -> (g: Game)
        ensures
            count_empty_spec(g.board) == 14,
            forall|i: int| 0 <= i < 16 ==> #[trigger] nyb(g.board, i) <= 2,
            initial_board(g.board),
    {
        proof {
            lemma_count_empty_zero_upto(16);
            lemma_zero_board();
        }
        let mut board: u64 = 0;
        let t1 = Self::spawn_tile(board);
        proof {
            lemma_spawn_fills_one(board, t1);
            lemma_spawn_cells(board, t1);
            assert(0u64 | t1 == t1) by (bit_vector);
        }
        board = board | t1;
        let t2 = Self::spawn_tile(board);
        proof {
            lemma_spawn_fills_one(board, t2);
            lemma_spawn_cells(board, t2);
            assert(spawns_into(0, t1) && spawns_into(t1, t2) && (t1 | t2) == t1 | t2);
        }
        board = board | t2;
        Game { board }
    }

    /// Runs the decision loop from the given state: repeatedly asks the
    /// policy for a direction, applies it, spawns one tile after every
    /// successful move, and stops when the policy returns the sentinel or
    /// four distinct directions have failed since the last successful move.
    ///
    /// The policy may assume the failed-list protocol (`failed_list_ok`).
    /// Whatever board comes back arose from `start` by whole turns —
    /// effective move, then spawn — and nothing else (`reached`), and the
    /// run ended in one of the four ways `play_exit` names. A policy that
    /// can only answer the sentinel leaves the board as it was; so does any
    /// policy on a board where no direction has an effect.
    ///
    /// The loop's decreasing measure is a pair of budgets of `2^64 - 1`:
    /// one on turns and new failures, one on consecutive answers that
    /// repeat an already-failed direction. Exhausting the first takes a
    /// game longer than any machine could play — and is then recorded in
    /// the `reached` arm of `play_exit`; exhausting the second needs a
    /// policy that stalls, which the stall arm of `play_exit` records.
    pub fn play_from<F: Fn(u64, &Vec<Direction>) -> Direction>(
        start: Game,
        moves: &Moves,
        mv: F,
    ) -> (g: Game)
        requires
            moves.wf(),
            forall|b: u64, v: Vec<Direction>|
                failed_list_ok(b, v@) ==> #[trigger] call_requires(mv, (b, &v)),
        ensures
            exists|n: nat| #[trigger] reached(start.board, g.board, n),
            play_exit(mv, start.board, g.board),
            (forall|b: u64, v: Vec<Direction>, d: Direction|
                call_ensures(mv, (b, &v), d) ==> d == Direction::NoMove) ==> g.board
                == start.board,
            (forall|d: Direction| #[trigger] execute_spec(start.board, d) == start.board)
                ==> g.board == start.board,
    {
        let mut game = start;
        let mut attempted: Vec<Direction> = Vec::new();
        let mut fuel: u64 = 0xFFFF_FFFF_FFFF_FFFF;
        let mut patience: u64 = 0xFFFF_FFFF_FFFF_FFFF;
        let ghost mut steps: nat = 0;
        let ghost mut stall_list = attempted;
        let ghost mut stall_dir = Direction::NoMove;
        loop
            invariant_except_break
                moves.wf(),
                forall|b: u64, v: Vec<Direction>|
                    failed_list_ok(b, v@) ==> #[trigger] call_requires(mv, (b, &v)),
                failed_list_ok(game.board, attempted@),
                reached(start.board, game.board, steps),
                0xFFFF_FFFF_FFFF_FFFF - fuel <= 5 * steps + attempted@.len(),
                patience < 0xFFFF_FFFF_FFFF_FFFF ==> failed_list_ok(game.board, stall_list@)
                    && call_ensures(mv, (game.board, &stall_list), stall_dir)
                    && stall_list@.contains(stall_dir),
                (forall|b: u64, v: Vec<Direction>, d: Direction|
                    call_ensures(mv, (b, &v), d) ==> d == Direction::NoMove) ==> game.board
                    == start.board,
                (forall|d: Direction| #[trigger] execute_spec(start.board, d) == start.board)
                    ==> game.board == start.board,
            ensures
                reached(start.board, game.board, steps),
                play_exit(mv, start.board, game.board),
                (forall|b: u64, v: Vec<Direction>, d: Direction|
                    call_ensures(mv, (b, &v), d) ==> d == Direction::NoMove) ==> game.board
                    == start.board,
                (forall|d: Direction| #[trigger] execute_spec(start.board, d) == start.board)
                    ==> game.board == start.board,
            decreases fuel, patience,
        {
            if fuel == 0 || patience == 0 {
                proof {
                    if fuel == 0 {
                        assert(reached(start.board, game.board, steps) && 5 * steps + 4
                            >= 0xFFFF_FFFF_FFFF_FFFF);
                    }
                }
                break;
            }
            let d = mv(game.board, &attempted);
            if d == Direction::NoMove || attempted.len() == 4 {
                proof {
                    if attempted@.len() == 4 {
                        lemma_four_failures_terminal(game.board, attempted@);
                    } else {
                        assert(failed_list_ok(game.board, attempted@) && call_ensures(
                            mv,
                            (game.board, &attempted),
                            Direction::NoMove,
                        ));
                    }
                }
                break;
            }
            if !contains_dir(&attempted, d) {
                fuel = fuel - 1;
                patience = 0xFFFF_FFFF_FFFF_FFFF;
                let result = Self::execute(game.board, &d, moves);
                if result == game.board {
                    attempted.push(d);
                } else {
                    proof {
                        if forall|dd: Direction|
                            #[trigger] execute_spec(start.board, dd) == start.board {
                            assert(execute_spec(start.board, d) == start.board);
                        }
                        lemma_execute_makes_room(game.board, d);
                    }
                    let t = Self::spawn_tile(result);
                    proof {
                        assert(legal_step(game.board, result | t)) by {
                            assert(execute_spec(game.board, d) != game.board && spawns_into(
                                execute_spec(game.board, d),
                                t,
                            ) && (result | t) == execute_spec(game.board, d) | t);
                        }
                        lemma_reached_extend(start.board, game.board, result | t, steps);
                        steps = steps + 1;
                    }
                    game.board = result | t;
                    attempted.clear();
                }
            } else {
                proof {
                    stall_list = attempted;
                    stall_dir = d;
                }
                patience = patience - 1;
            }
        }
        game
    }

    /// Plays a whole game: a fresh two-tile board driven by the policy to
    /// completion. The policy is handed the current board and the list of
    /// directions attempted and failed since the last successful move, and
    /// may assume that list obeys the protocol (`failed_list_ok`). The
    /// returned board arose from some fresh two-tile board by whole turns,
    /// and the run ended in one of the four ways `play_exit` names.
    pub fn play<F: Fn(u64, &Vec<Direction>) -> Direction>(moves: &Moves, mv: F) -> (g: Game)
        requires
            moves.wf(),
            forall|b: u64, v: Vec<Direction>|
                failed_list_ok(b, v@) ==> #[trigger] call_requires(mv, (b, &v)),
        ensures
            exists|b0: u64|
                #[trigger] initial_board(b0) && (exists|n: nat| #[trigger] reached(b0, g.board, n))
                    && play_exit(mv, b0, g.board),
            (forall|b: u64, v: Vec<Direction>, d: Direction|
                call_ensures(mv, (b, &v), d) ==> d == Direction::NoMove)
                ==> count_empty_spec(g.board) == 14,
    {
        let game = Self::new();
        let ghost b0 = game.board;
        let played = Self::play_from(game, moves, mv);
        proof {
            let n = choose|n: nat| #[trigger] reached(b0, played.board, n);
            assert(initial_board(b0) && reached(b0, played.board, n) && play_exit(
                mv,
                b0,
                played.board,
            ));
        }
        played
    }
}

} // verus!
