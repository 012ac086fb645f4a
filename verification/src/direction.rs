//! The closed set of move directions, with the helpers a random-play policy
//! relies on.

use vstd::prelude::*;

use crate::rng::random_below;

verus! {

/// All available directions, plus a sentinel meaning "no move available".
#[derive(Clone, Copy, Debug, PartialEq, Eq, Structural)]
pub enum Direction {
    Left,
    Right,
    Up,
    Down,
    NoMove,
}

/// The four real directions with the excluded ones removed, keeping the
/// fixed order Left, Right, Up, Down.
pub open spec fn without_spec(excl: Seq<Direction>) -> Seq<Direction> {
    (if excl.contains(Direction::Left) {
        Seq::<Direction>::empty()
    } else {
        seq![Direction::Left]
    }) + (if excl.contains(Direction::Right) {
        Seq::<Direction>::empty()
    } else {
        seq![Direction::Right]
    }) + (if excl.contains(Direction::Up) {
        Seq::<Direction>::empty()
    } else {
        seq![Direction::Up]
    }) + (if excl.contains(Direction::Down) {
        Seq::<Direction>::empty()
    } else {
        seq![Direction::Down]
    })
}

/// Whether the list holds the given direction, computed.
pub(crate) fn contains_dir(dirs: &Vec<Direction>, d: Direction) -> (b: bool)
    ensures
        b == dirs@.contains(d),
{
    let mut i: usize = 0;
    while i < dirs.len()
        invariant
            i <= dirs@.len(),
            forall|j: int| 0 <= j < i ==> dirs@[j] != d,
        decreases dirs@.len() - i,
    {
        if dirs[i] == d {
            proof {
                assert(dirs@[i as int] == d);
            }
            return true;
        }
        i += 1;
    }
    false
}

impl Direction {
    /// Returns a uniformly chosen real direction.
    pub fn sample() -> (d: Direction)
        ensures
            d != Direction::NoMove,
    {
        match random_below(4) {
            0 => Direction::Left,
            1 => Direction::Right,
            2 => Direction::Down,
            _ => Direction::Up,
        }
    }

    /// Returns the four real directions except those in `dirs`, in order.
    pub fn without(dirs: &Vec<Direction>) -> (r: Vec<Direction>)
        ensures
            r@ == without_spec(dirs@),
    {
        let mut r: Vec<Direction> = Vec::new();
        if !contains_dir(dirs, Direction::Left) {
            r.push(Direction::Left);
        }
        if !contains_dir(dirs, Direction::Right) {
            r.push(Direction::Right);
        }
        if !contains_dir(dirs, Direction::Up) {
            r.push(Direction::Up);
        }
        if !contains_dir(dirs, Direction::Down) {
            r.push(Direction::Down);
        }
        proof {
            assert(r@ =~= without_spec(dirs@));
        }
        r
    }

    /// Chooses uniformly among the directions not excluded by `dirs`; the
    /// sentinel when every direction is excluded.
    pub fn sample_without(dirs: &Vec<Direction>) -> (d: Direction)
        ensures
            without_spec(dirs@).len() == 0 ==> d == Direction::NoMove,
            without_spec(dirs@).len() > 0 ==> without_spec(dirs@).contains(d),
    {
        let filtered = Self::without(dirs);
        if filtered.len() == 0 {
            return Direction::NoMove;
        }
        let i = random_below(filtered.len() as u32);
        let d = filtered[i as usize];
        proof {
            assert(filtered@[i as int] == d);
        }
        d
    }
}

} // verus!
