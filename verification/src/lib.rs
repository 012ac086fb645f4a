//! A compact engine for the sliding-tile merging game played on a 4x4 grid.
//!
//! The whole grid packs into one `u64`: sixteen 4-bit cells, row-major, with
//! the least significant nybble holding column 0 of row 0. A cell value `k > 0`
//! stands for a tile of magnitude `2^(k+1)`; `0` is an empty cell. Every move
//! reduces to four lookups in a precomputed table of per-row deltas and four
//! XORs against the board.

mod direction;
mod game;
mod laws;
mod masks;
mod moves;
mod rng;
mod rows;

pub use direction::Direction;
pub use direction::without_spec;
pub use game::Game;
pub use game::count_empty_spec;
pub use game::count_tiles_spec;
pub use game::execute_spec;
pub use game::failed_list_ok;
pub use game::highest_tile;
pub use game::initial_board;
pub use game::legal_step;
pub use game::lemma_execute_makes_room;
pub use game::lemma_spawn_cells;
pub use game::lemma_spawn_fills_one;
pub use game::reached;
pub use game::move_down_spec;
pub use game::move_left_spec;
pub use game::move_right_spec;
pub use game::move_up_spec;
pub use game::score_spec;
pub use game::spawns_into;
pub use game::lemma_four_failures_terminal;
pub use game::lemma_no_sentinel_exit;
pub use game::play_exit;
pub use laws::lemma_execute_idempotent_when_stuck;
pub use laws::lemma_right_delta_matches;
pub use laws::lemma_score_monotone;
pub use laws::lemma_tile_count;
pub use masks::COL_MASK;
pub use masks::ROW_MASK;
pub use masks::column_spec;
pub use masks::lemma_transpose_involution;
pub use masks::nyb;
pub use masks::reverse_spec;
pub use masks::row_of;
pub use masks::transpose_spec;
pub use moves::Moves;
