use tfe::Moves;

// An independent simulation of the canonical collapse: scan the four cells
// low to high, slide tiles over gaps, merge equal neighbours once each,
// saturating at 15.
fn simulate_right(row: u64) -> u64 {
    let mut line = [row & 0xF, (row >> 4) & 0xF, (row >> 8) & 0xF, (row >> 12) & 0xF];
    let mut i = 0;
    while i < 3 {
        let mut j = i + 1;
        while j < 4 {
            if line[j] != 0 {
                break;
            }
            j += 1;
        }
        if j == 4 {
            break;
        }
        if line[i] == 0 {
            line[i] = line[j];
            line[j] = 0;
            continue;
        } else if line[i] == line[j] {
            if line[i] != 0xF {
                line[i] += 1;
            }
            line[j] = 0;
        }
        i += 1;
    }
    line[0] | (line[1] << 4) | (line[2] << 8) | (line[3] << 12)
}

fn reverse(row: u64) -> u64 {
    (row >> 12) & 0x000F | (row >> 4) & 0x00F0 | (row << 4) & 0x0F00 | (row << 12) & 0xF000
}

fn column(row: u64) -> u64 {
    (row | (row << 12) | (row << 24) | (row << 36)) & 0x000F_000F_000F_000F
}

fn score_of(row: u64) -> u64 {
    let line = [row & 0xF, (row >> 4) & 0xF, (row >> 8) & 0xF, (row >> 12) & 0xF];
    let mut s = 0;
    for v in line {
        if v >= 2 {
            s += (v - 1) * (1 << v);
        }
    }
    s
}

#[test]
fn right_deltas_match_direct_simulation() {
    let m = Moves::generate();
    for row in 0..65536u64 {
        let expected = simulate_right(row);
        assert_eq!(m.right[row as usize], row ^ expected);
    }
}

#[test]
fn left_up_down_deltas_match_direct_simulation() {
    let m = Moves::generate();
    for row in 0..65536u64 {
        let expected = simulate_right(row);
        let rev = reverse(row);
        assert_eq!(m.left[rev as usize], rev ^ reverse(expected));
        assert_eq!(m.down[row as usize], column(row) ^ column(expected));
        assert_eq!(m.up[rev as usize], column(rev) ^ column(reverse(expected)));
    }
}

#[test]
fn scores_match_direct_computation() {
    let m = Moves::generate();
    for row in 0..65536u64 {
        assert_eq!(m.scores[row as usize], score_of(row));
    }
}

#[test]
fn table_lengths() {
    let m = Moves::generate();
    assert_eq!(m.left.len(), 65536);
    assert_eq!(m.right.len(), 65536);
    assert_eq!(m.up.len(), 65536);
    assert_eq!(m.down.len(), 65536);
    assert_eq!(m.scores.len(), 65536);
}

#[test]
fn column_from_broadcasts_the_row() {
    assert_eq!(Moves::column_from(0x4321), 0x0004_0003_0002_0001);
    assert_eq!(Moves::column_from(0xFFFF), 0x000F_000F_000F_000F);
    assert_eq!(Moves::column_from(0), 0);
}
