//! The precomputed move table.
//!
//! For each of the 65536 row patterns the table stores, per direction, the
//! XOR delta that turns the positioned row (or column) into its slid and
//! merged form, plus the row's score. The table is a pure function of the
//! game rules: built once, read forever, safe to share.

use vstd::prelude::*;

use crate::masks::COL_MASK;
use crate::masks::column_spec;
use crate::masks::reverse_row;
use crate::rows::collapse_row;
use crate::rows::row_left;
use crate::rows::row_score;
use crate::rows::score_row;
use crate::rows::slide_row;

verus! {

/// All available moves per row for up, down, right and left, stored as XOR
/// deltas, together with the score of each row.
pub struct Moves {
    pub left: Vec<u64>,
    pub right: Vec<u64>,
    pub down: Vec<u64>,
    pub up: Vec<u64>,
    pub scores: Vec<u64>,
}

impl Moves {
    /// What a correctly built table holds: for every row pattern `r`, the
    /// `right` entry is `r XOR slide_row(r)`, the `left` entry the same for
    /// the reversed collapse, the `down` and `up` entries those deltas spread
    /// over a column slot, and the `scores` entry the row's score.
    pub open spec fn wf(&self) -> bool {
        &&& self.left@.len() == 65536
        &&& self.right@.len() == 65536
        &&& self.down@.len() == 65536
        &&& self.up@.len() == 65536
        &&& self.scores@.len() == 65536
        &&& forall|r: int|
            0 <= r < 65536 ==> #[trigger] self.right@[r] == (r as u64) ^ slide_row(r as u64)
        &&& forall|r: int|
            0 <= r < 65536 ==> #[trigger] self.left@[r] == (r as u64) ^ row_left(r as u64)
        &&& forall|r: int|
            0 <= r < 65536 ==> #[trigger] self.down@[r] == column_spec(r as u64) ^ column_spec(
                slide_row(r as u64),
            )
        &&& forall|r: int|
            0 <= r < 65536 ==> #[trigger] self.up@[r] == column_spec(r as u64) ^ column_spec(
                row_left(r as u64),
            )
        &&& forall|r: int|
            0 <= r < 65536 ==> #[trigger] self.scores@[r] as int == row_score(r as u64)
        &&& forall|r: int| 0 <= r < 65536 ==> #[trigger] self.scores@[r] <= 1835008
    }

    /// The 4th bit from each row in the given board, OR'd into the low
    /// column slot of each row.
    pub fn column_from(board: u64) -> (r: u64)
        ensures
            r == column_spec(board),
    {
        (board | (board << 12) | (board << 24) | (board << 36)) & COL_MASK
    }

    /// Builds the table by collapsing every 16-bit row pattern once, deriving
    /// the left and up entries from the collapse of the reversed pattern.
    pub fn generate() -> (m: Moves)
        ensures
            m.wf(),
    {
        let mut left: Vec<u64> = Vec::new();
        let mut right: Vec<u64> = Vec::new();
        let mut down: Vec<u64> = Vec::new();
        let mut up: Vec<u64> = Vec::new();
        let mut scores: Vec<u64> = Vec::new();
        let mut row: u64 = 0;
        while row < 65536
            invariant
                row <= 65536,
                left@.len() == row,
                right@.len() == row,
                down@.len() == row,
                up@.len() == row,
                scores@.len() == row,
                forall|r: int|
                    0 <= r < row ==> #[trigger] right@[r] == (r as u64) ^ slide_row(r as u64),
                forall|r: int|
                    0 <= r < row ==> #[trigger] left@[r] == (r as u64) ^ row_left(r as u64),
                forall|r: int|
                    0 <= r < row ==> #[trigger] down@[r] == column_spec(r as u64) ^ column_spec(
                        slide_row(r as u64),
                    ),
                forall|r: int|
                    0 <= r < row ==> #[trigger] up@[r] == column_spec(r as u64) ^ column_spec(
                        row_left(r as u64),
                    ),
                forall|r: int| 0 <= r < row ==> #[trigger] scores@[r] as int == row_score(r as u64),
                forall|r: int| 0 <= r < row ==> #[trigger] scores@[r] <= 1835008,
            decreases 65536 - row,
        {
            let res = collapse_row(row);
            let rev = reverse_row(row);
            let rev_res = collapse_row(rev);
            let left_res = reverse_row(rev_res);
            right.push(row ^ res);
            left.push(row ^ left_res);
            down.push(Self::column_from(row) ^ Self::column_from(res));
            up.push(Self::column_from(row) ^ Self::column_from(left_res));
            scores.push(score_row(row));
            row = row + 1;
        }
        Moves { left, right, down, up, scores }
    }
}

} // verus!
