use std::cell::Cell;

use tfe::Direction;
use tfe::Game;
use tfe::Moves;

#[test]
fn tile_is_one_or_two() {
    for _ in 0..100 {
        let t = Game::tile();
        assert!(t == 1 || t == 2);
    }
}

#[test]
fn spawn_lands_in_the_one_empty_cell() {
    // Every cell but cell 5 is occupied: the spawned tile must land there,
    // as a 1 or a 2. A spawn that returned its argument or a junk position
    // would fail this.
    let board = 0xFFFF_FFFF_FF0F_FFFF;
    for _ in 0..50 {
        let t = Game::spawn_tile(board);
        assert!(t == 0x10_0000 || t == 0x20_0000);
    }
}

#[test]
fn spawn_fills_exactly_one_cell_each_time() {
    let mut board: u64 = 0;
    for expected_empty in (1..=16u32).rev() {
        assert_eq!(Game::count_empty(board), expected_empty);
        let t = Game::spawn_tile(board);
        assert_eq!(board & t, 0, "the tile must land in an empty cell");
        board |= t;
        assert_eq!(Game::count_empty(board), expected_empty - 1);
    }
}

#[test]
fn new_spawns_two_tiles() {
    for _ in 0..20 {
        let g = Game::new();
        assert_eq!(Game::count_empty(g.board), 14);
        let mut occupied = 0;
        for i in 0..16 {
            let v = (g.board >> (i * 4)) & 0xF;
            assert!(v <= 2, "a fresh board holds nothing but 1s and 2s");
            if v != 0 {
                occupied += 1;
            }
        }
        assert_eq!(occupied, 2);
    }
}

#[test]
fn play_with_sentinel_policy_stops_at_once() {
    let m = Moves::generate();
    let calls = Cell::new(0u32);
    let g = Game::play(&m, |_board, _failed: &Vec<Direction>| {
        calls.set(calls.get() + 1);
        Direction::NoMove
    });
    assert_eq!(Game::count_empty(g.board), 14);
    assert_eq!(calls.get(), 1);
}

#[test]
fn play_from_saturated_board_fails_four_directions() {
    let m = Moves::generate();
    // Alternating cells, no equal neighbours in any row or column: every
    // direction is a no-op.
    let board = 0x4343_2121_4343_2121;
    let calls = Cell::new(0u32);
    let most_failed = Cell::new(0usize);
    let g = Game::play_from(Game { board }, &m, |b, failed: &Vec<Direction>| {
        calls.set(calls.get() + 1);
        if failed.len() > most_failed.get() {
            most_failed.set(failed.len());
        }
        assert_eq!(b, board);
        match failed.len() {
            0 => Direction::Left,
            1 => Direction::Right,
            2 => Direction::Up,
            3 => Direction::Down,
            _ => Direction::NoMove,
        }
    });
    assert_eq!(g.board, board);
    // Four distinct directions fail; the fifth consultation sees all four
    // failed and the loop stops.
    assert_eq!(calls.get(), 5);
    assert_eq!(most_failed.get(), 4);
}

#[test]
fn random_play_reaches_a_terminal_board() {
    let m = Moves::generate();
    let g = Game::play(&m, |_b, failed: &Vec<Direction>| Direction::sample_without(failed));
    // At the end no direction may change the board.
    for d in [Direction::Left, Direction::Right, Direction::Up, Direction::Down] {
        assert_eq!(Game::execute(g.board, &d, &m), g.board);
    }
    assert!(g.board != 0);
}
