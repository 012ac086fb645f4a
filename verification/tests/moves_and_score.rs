use tfe::Direction;
use tfe::Game;
use tfe::Moves;

#[test]
fn move_left_merges_and_slides() {
    let m = Moves::generate();
    // Row 1,1,2,2 read low nybble first: merges to 2,3 against the high end.
    assert_eq!(Game::move_left(0x0000_0000_0000_2211, &m), 0x0000_0000_0000_3200);
    let board = 0x0000_0000_0022_1100;
    let moved = Game::execute(board, &Direction::Left, &m);
    assert_eq!(board, 0x0000_0000_0022_1100);
    assert_eq!(moved, 0x0000_0000_3000_2000);
}

#[test]
fn move_right_merges_and_slides() {
    let m = Moves::generate();
    assert_eq!(Game::move_right(0x0000_0000_0000_2211, &m), 0x0000_0000_0000_0032);
    assert_eq!(Game::execute(0x2211, &Direction::Right, &m), 0x0032);
}

#[test]
fn move_up_sends_tiles_to_the_high_row() {
    let m = Moves::generate();
    assert_eq!(Game::move_up(0x0000_0000_0000_0011, &m), 0x0011_0000_0000_0000);
    assert_eq!(Game::execute(0x0000_0000_0000_0011, &Direction::Up, &m), 0x0011_0000_0000_0000);
}

#[test]
fn move_down_merges_along_columns() {
    let m = Moves::generate();
    assert_eq!(Game::move_down(0x0011_0000_0000_0011, &m), 0x0000_0000_0000_0022);
    assert_eq!(Game::execute(0x0011_0000_0000_0011, &Direction::Down, &m), 0x0000_0000_0000_0022);
}

#[test]
fn sentinel_changes_nothing() {
    let m = Moves::generate();
    assert_eq!(Game::execute(0x1234_5678_9ABC_DEF0, &Direction::NoMove, &m), 0x1234_5678_9ABC_DEF0);
}

#[test]
fn stuck_moves_stay_stuck() {
    let m = Moves::generate();
    // No direction changes a saturated alternating board or the empty board:
    // executing twice gives the same answer as executing once.
    let dirs = [Direction::Left, Direction::Right, Direction::Up, Direction::Down];
    for b in [0u64, 0x4343_2121_4343_2121] {
        for d in &dirs {
            let once = Game::execute(b, d, &m);
            assert_eq!(once, b);
            assert_eq!(Game::execute(once, d, &m), b);
        }
    }
}

#[test]
fn exact_scores() {
    let m = Moves::generate();
    // A cell of value 2 (the tile 8) scores (2-1)*2^2 = 4; value 3 scores 16.
    assert_eq!(Game::score(0x2, &m), 4);
    assert_eq!(Game::score(0x3, &m), 16);
    assert_eq!(Game::score(0x0000_0000_0000_0032, &m), 20);
    assert_eq!(Game::score(0, &m), 0);
    assert_eq!(Game::score(0x1111_1111_1111_1111, &m), 0);
}

#[test]
fn score_never_drops_on_unsaturated_boards() {
    let m = Moves::generate();
    let dirs = [Direction::Left, Direction::Right, Direction::Up, Direction::Down];
    // A small pseudo-random walk over boards with no saturated cell.
    let mut x: u64 = 0x9E37_79B9_7F4A_7C15;
    for _ in 0..200 {
        x = x.wrapping_mul(6364136223846793005).wrapping_add(1442695040888963407);
        let mut b = x;
        // Clear a nybble's high bit wherever the cell would be 15.
        for i in 0..16 {
            if (b >> (i * 4)) & 0xF == 0xF {
                b &= !(8u64 << (i * 4));
            }
        }
        for d in &dirs {
            assert!(Game::score(Game::execute(b, d, &m), &m) >= Game::score(b, &m));
        }
    }
}

#[test]
fn saturated_merge_can_lose_score() {
    let m = Moves::generate();
    // Two saturated tiles collapse into one with no value increase: the row
    // 15,15,0,0 halves its score when moved right.
    let before = Game::score(0xFF, &m);
    let after = Game::score(Game::move_right(0xFF, &m), &m);
    assert!(after < before);
}

#[test]
fn table_helper_sums_the_four_rows() {
    let m = Moves::generate();
    let b = 0x0003_0002_0003_0002;
    assert_eq!(Game::table_helper(b, &m.scores), 40);
    assert_eq!(Game::table_helper(b, &m.scores), Game::score(b, &m));
    assert_eq!(Game::board_info(b, &m.scores), 40);
    assert_eq!(Game::column_from(0x4321), Moves::column_from(0x4321));
}

#[test]
fn table_helper_accepts_oversized_tables() {
    let mut table = vec![0u64; 70000];
    table[1] = 7;
    // Board with row pattern 1 in every row: four lookups of entry 1.
    assert_eq!(Game::table_helper(0x0001_0001_0001_0001, &table), 28);
}

#[test]
fn transpose_example_and_involution() {
    assert_eq!(Game::transpose(0xFEDC_BA98_7654_3210), 0xFB73_EA62_D951_C840);
    let mut x: u64 = 1;
    for _ in 0..100 {
        x = x.wrapping_mul(6364136223846793005).wrapping_add(1442695040888963407);
        assert_eq!(Game::transpose(Game::transpose(x)), x);
    }
    assert_eq!(Game::transpose(0), 0);
}

#[test]
fn count_empty_counts_zero_cells() {
    assert_eq!(Game::count_empty(0x0000_0000_0000_2211), 12);
    assert_eq!(Game::count_empty(0), 16);
    assert_eq!(Game::count_empty(0xFFFF_FFFF_FFFF_FFFF), 0);
    assert_eq!(Game::count_empty(0x1000_0000_0000_0000), 15);
}

#[test]
fn highest_tile_reports_the_displayed_value() {
    assert_eq!(tfe::highest_tile(0), 2);
    assert_eq!(tfe::highest_tile(0x0000_0000_0000_0001), 4);
    assert_eq!(tfe::highest_tile(0x0000_0A00_0000_0321), 2048);
    assert_eq!(tfe::highest_tile(0xF000_0000_0000_0000), 65536);
}

#[test]
fn empty_and_occupied_cells_partition_the_board() {
    let mut x: u64 = 7;
    for _ in 0..100 {
        x = x.wrapping_mul(6364136223846793005).wrapping_add(1442695040888963407);
        let mut occupied = 0;
        for i in 0..16 {
            if (x >> (i * 4)) & 0xF != 0 {
                occupied += 1;
            }
        }
        assert_eq!(Game::count_empty(x) + occupied, 16);
    }
}
