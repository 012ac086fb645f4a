use tfe::Direction;

#[test]
fn without_removes_the_excluded_directions() {
    let available = Direction::without(&vec![Direction::Left, Direction::Right]);
    assert_eq!(available, vec![Direction::Up, Direction::Down]);
    let all = Direction::without(&vec![]);
    assert_eq!(all, vec![Direction::Left, Direction::Right, Direction::Up, Direction::Down]);
    let none = Direction::without(&vec![
        Direction::Left,
        Direction::Right,
        Direction::Up,
        Direction::Down,
    ]);
    assert_eq!(none, vec![]);
}

#[test]
fn sample_returns_a_real_direction() {
    for _ in 0..100 {
        let d = Direction::sample();
        assert!(d != Direction::NoMove);
    }
}

#[test]
fn sample_without_respects_the_exclusions() {
    let up = Direction::sample_without(&vec![Direction::Down, Direction::Left, Direction::Right]);
    assert_eq!(up, Direction::Up);
    for _ in 0..50 {
        let d = Direction::sample_without(&vec![Direction::Left, Direction::Right]);
        assert!(d == Direction::Up || d == Direction::Down);
    }
    let stuck = Direction::sample_without(&vec![
        Direction::Left,
        Direction::Right,
        Direction::Up,
        Direction::Down,
    ]);
    assert_eq!(stuck, Direction::NoMove);
}
