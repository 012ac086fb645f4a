//! Bit masks and the constant-time bit permutations on packed boards:
//! row and column extraction, transposition, cell reversal, and the
//! bit-vector facts the rest of the engine leans on.

use vstd::prelude::*;

verus! {

/// Isolates the low 16 bits of a board: one row of four cells.
pub const ROW_MASK: u64 = 0xFFFF;

/// Isolates the low nybble of each 16-bit row: one column slot per row.
pub const COL_MASK: u64 = 0x000F_000F_000F_000F;

/// Cell `i` of a packed board: the 4-bit field at bits `4*i .. 4*i + 4`.
pub open spec fn nyb(b: u64, i: int) -> u64 {
    (b >> ((4 * i) as u64)) & 0xF
}

/// Row `i` of a packed board: the 16-bit field at bits `16*i .. 16*i + 16`.
pub open spec fn row_of(b: u64, i: int) -> u64 {
    (b >> ((16 * i) as u64)) & 0xFFFF
}

/// The board whose rows, low to high, are `s0`, `s1`, `s2`, `s3`.
pub open spec fn rows_pack(s0: u64, s1: u64, s2: u64, s3: u64) -> u64 {
    s0 | (s1 << 16) | (s2 << 32) | (s3 << 48)
}

/// Exchanges rows and columns of a packed board.
pub open spec fn transpose_spec(b: u64) -> u64 {
    let a1 = b & 0xF0F0_0F0F_F0F0_0F0F;
    let a2 = b & 0x0000_F0F0_0000_F0F0;
    let a3 = b & 0x0F0F_0000_0F0F_0000;
    let a = a1 | (a2 << 12) | (a3 >> 12);
    let b1 = a & 0xFF00_FF00_00FF_00FF;
    let b2 = a & 0x00FF_00FF_0000_0000;
    let b3 = a & 0x0000_0000_FF00_FF00;
    b1 | (b2 >> 24) | (b3 << 24)
}

/// Broadcasts a 16-bit row into the low column slot of each of the four rows.
pub open spec fn column_spec(r: u64) -> u64 {
    (r | (r << 12) | (r << 24) | (r << 36)) & COL_MASK
}

/// Reverses the order of the four cells within a 16-bit row.
pub open spec fn reverse_spec(r: u64) -> u64 {
    ((r >> 12) & 0x000F) | ((r >> 4) & 0x00F0) | ((r << 4) & 0x0F00) | ((r << 12) & 0xF000)
}

/// Transposing twice restores the board.
pub proof fn lemma_transpose_involution(b: u64)
    by (bit_vector)
    ensures
        transpose_spec(transpose_spec(b)) == b,
{
}

/// Reversing a row twice restores it; a reversed row is again a 16-bit value.
pub proof fn lemma_reverse_involution(r: u64)
    by (bit_vector)
    ensures
        reverse_spec(reverse_spec(r)) == (r & 0xFFFF),
        reverse_spec(r) <= 0xFFFF,
{
}

/// Each cell of a board is a 4-bit value; each row is a 16-bit value.
pub proof fn lemma_field_bounds(b: u64, i: u64)
    by (bit_vector)
    ensures
        (b >> i) & 0xF < 16,
        (b >> i) & 0xFFFF <= 0xFFFF,
        b & 0xF < 16,
        b & 0xFFFF <= 0xFFFF,
{
}

/// Cell `4*i + j` of the board is cell `j` of row `i`.
pub proof fn lemma_row_cell(b: u64, i: u64, j: u64)
    by (bit_vector)
    requires
        i < 4,
        j < 4,
    ensures
        (((b >> (16 * i)) & 0xFFFF) >> (4 * j)) & 0xF == (b >> (16 * i + 4 * j)) & 0xF,
{
}

/// Transposing moves the cell in row `i`, column `j` to row `j`, column `i`.
pub proof fn lemma_transpose_cell(b: u64, i: u64, j: u64)
    by (bit_vector)
    requires
        i < 4,
        j < 4,
    ensures
        (transpose_spec(b) >> (16 * i + 4 * j)) & 0xF == (b >> (16 * j + 4 * i)) & 0xF,
{
}

/// A shift by zero changes nothing; row 0 of a board is its low 16 bits.
pub proof fn lemma_shift_zero(b: u64)
    by (bit_vector)
    ensures
        b >> 0u64 == b,
{
}

/// Reading a row back out of a packed quadruple gives the value packed in.
pub proof fn lemma_rows_pack_rows(s0: u64, s1: u64, s2: u64, s3: u64)
    by (bit_vector)
    requires
        s0 <= 0xFFFF,
        s1 <= 0xFFFF,
        s2 <= 0xFFFF,
        s3 <= 0xFFFF,
    ensures
        row_of(rows_pack(s0, s1, s2, s3), 0) == s0,
        row_of(rows_pack(s0, s1, s2, s3), 1) == s1,
        row_of(rows_pack(s0, s1, s2, s3), 2) == s2,
        row_of(rows_pack(s0, s1, s2, s3), 3) == s3,
{
}

/// Packing a board's four rows back together restores the board.
pub proof fn lemma_board_is_its_rows(b: u64)
    by (bit_vector)
    ensures
        rows_pack(row_of(b, 0), row_of(b, 1), row_of(b, 2), row_of(b, 3)) == b,
        row_of(b, 0) <= 0xFFFF,
        row_of(b, 1) <= 0xFFFF,
        row_of(b, 2) <= 0xFFFF,
        row_of(b, 3) <= 0xFFFF,
{
}

/// Reverses the order of the four cells within a 16-bit row, computed.
pub(crate) fn reverse_row(r: u64) -> (res: u64)
    ensures
        res == reverse_spec(r),
        res <= 0xFFFF,
{
    proof {
        lemma_reverse_involution(r);
    }
    ((r >> 12) & 0x000F) | ((r >> 4) & 0x00F0) | ((r << 4) & 0x0F00) | ((r << 12) & 0xF000)
}

} // verus!
